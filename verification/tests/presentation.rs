use mimebind::i18n::Message;
use mimebind::catalog::{installed_apps, AppRecord};
use mimebind::category::{category_default, default_candidates, default_categories, DefaultOwner};
use mimebind::entry::{group_label, media_group, GroupLabel, MimeEntry, ViewState};
use mimebind::i18n::N_;
use mimebind::messages::{
    assign_prompt, count_changing, default_assigned, default_heading, default_subtitle,
    fill_group_tooltip, fill_row_label, header_label, reset_all_body, reset_all_done,
    chosen_default, no_candidates_body, reset_done, group_tooltip, group_tooltip_message,
    reset_all_done_message, row_label, row_label_message, fill_assign_body, fill_assign_heading,
    fill_chosen_default, fill_count, fill_default_assigned, fill_placeholder,
};
use mimebind::catalog::fill_report;
use mimebind::sidebar::fill_sidebar;
use mimebind::text::{decimal_text, replace_text};
use mimebind::typeset::TypeSet;
use mimebind::window::{
    controls, header_button_app, list_types, selection_position, selection_title, shows,
    title_message, view_plan, Page, Selection,
};

fn english(message: &Message) -> String {
    match message.plural {
        Some((plural, n)) if n != 1 => plural.to_string(),
        _ => message.id.to_string(),
    }
}


fn record(id: &str, name: &str, types: &[&str]) -> AppRecord {
    AppRecord {
        id: Some(id.to_string()),
        name: name.to_string(),
        types: types.iter().map(|kind| kind.to_string()).collect(),
    }
}

#[test]
fn media_groups_name_the_top_level_type() {
    assert_eq!(media_group("image/png", &english), "Images");
    assert_eq!(media_group("x-scheme-handler/https", &english), "Links and Protocols");
    assert_eq!(media_group("chemical/x-pdb", &english), "Chemical");
    assert_eq!(media_group("/odd", &english), "Other");
    assert_eq!(media_group("plain", &english), "Plain");
    assert!(matches!(group_label("model/gltf"), GroupLabel::Translated("3D Models")));
}

#[test]
fn entries_carry_search_key_group_and_modified_flag() {
    let overrides = TypeSet::from_strs(&["image/png"]);
    let entry = MimeEntry::new("image/png", "PNG image", &overrides, &english);
    assert_eq!(entry.search_key(), "image/png PNG image");
    assert_eq!(entry.type_group(), "Images");
    assert!(entry.modified());
    let other = MimeEntry::new("text/plain", "Plain text", &overrides, &english);
    assert!(!other.modified());
    let mut state = ViewState::new();
    assert!(!state.narrow());
    state.set_narrow(true);
    assert!(state.narrow());
    assert_eq!(N_("Images"), "Images");
}

#[test]
fn text_helpers() {
    assert_eq!(decimal_text(0), "0");
    assert_eq!(decimal_text(1205), "1205");
    assert_eq!(replace_text("{a} and {a}{b}", "{a}", "x"), "x and x{b}");
    assert_eq!(replace_text("aaa", "aa", "b"), "ba");
}

#[test]
fn selections_filter_the_list() {
    let apps = installed_apps(&[record("v.desktop", "Viewer", &["image/png"])]);
    let overrides = TypeSet::from_strs(&["text/plain"]);
    let png = MimeEntry::new("image/png", "PNG image", &overrides, &english);
    let txt = MimeEntry::new("text/plain", "Plain text", &overrides, &english);
    assert!(!shows(&Selection::Defaults, &apps, &png));
    assert!(shows(&Selection::All, &apps, &png));
    assert!(shows(&Selection::Modified, &apps, &txt));
    assert!(!shows(&Selection::Modified, &apps, &png));
    assert!(shows(&Selection::App("v.desktop".into()), &apps, &png));
    assert!(!shows(&Selection::App("v.desktop".into()), &apps, &txt));
    assert!(!shows(&Selection::App("x.desktop".into()), &apps, &png));
    assert!(shows(&Selection::Media("Images".into()), &apps, &png));
    assert!(!shows(&Selection::Media("Text".into()), &apps, &png));
}

#[test]
fn view_plans_follow_the_selection() {
    let plan = view_plan(&Selection::Defaults, 5);
    assert!(!plan.headers && matches!(plan.page, Page::Defaults));
    let plan = view_plan(&Selection::Modified, 0);
    assert!(plan.headers && !plan.reset_all_visible && matches!(plan.page, Page::NothingChanged));
    let plan = view_plan(&Selection::Modified, 3);
    assert!(plan.reset_all_visible && matches!(plan.page, Page::List));
    let plan = view_plan(&Selection::App("v.desktop".into()), 0);
    assert_eq!(plan.header_app.as_deref(), Some("v.desktop"));
    assert!(matches!(plan.page, Page::NoMatches));
    let plan = view_plan(&Selection::Media("Images".into()), 2);
    assert!(!plan.headers);
    let c = controls(&Selection::App("v.desktop".into()));
    assert!(c.use_all_visible && c.search_visible);
    let c = controls(&Selection::Defaults);
    assert!(!c.use_all_visible && !c.search_visible);
}

#[test]
fn titles_and_positions() {
    let apps = installed_apps(&[record("v.desktop", "Viewer", &["image/png"])]);
    assert_eq!(selection_title(&Selection::App("v.desktop".into()), &apps, &english), "Viewer");
    assert_eq!(selection_title(&Selection::App("gone.desktop".into()), &apps, &english), "gone.desktop");
    assert_eq!(selection_title(&Selection::Media("Images".into()), &apps, &english), "Images");
    assert_eq!(selection_title(&Selection::All, &apps, &english), "All File Types");
    let selections = vec![
        Selection::Defaults,
        Selection::All,
        Selection::Modified,
        Selection::Media("Images".into()),
    ];
    assert_eq!(selection_position(&selections, &Selection::Media("Images".into())), 3);
    assert_eq!(selection_position(&selections, &Selection::Media("Text".into())), 0);
    assert!(Selection::App("a".into()) == Selection::App("a".into()));
    assert!(Selection::App("a".into()) != Selection::Media("a".into()));
}

#[test]
fn the_list_keeps_every_override() {
    let apps = installed_apps(&[record("v.desktop", "Viewer", &["image/png"])]);
    let overrides = TypeSet::from_strs(&["application/x-gone"]);
    let list = list_types(&apps, &overrides);
    assert_eq!(list.len(), 2);
    assert!(list.contains("application/x-gone"));
    assert!(list.contains("image/png"));
}

#[test]
fn sidebar_counts() {
    let apps = installed_apps(&[
        record("v.desktop", "Viewer", &["image/png", "image/jpeg"]),
        record("e.desktop", "Editor", &["text/plain"]),
    ]);
    let overrides = TypeSet::from_strs(&["text/plain"]);
    let entries = vec![
        MimeEntry::new("image/png", "PNG", &overrides, &english),
        MimeEntry::new("text/plain", "Text", &overrides, &english),
        MimeEntry::new("image/jpeg", "JPEG", &overrides, &english),
    ];
    let rows = fill_sidebar(&entries, &apps, true, &english);
    assert_eq!(rows.len(), 5);
    assert_eq!(rows[1].count, Some(3));
    assert_eq!(rows[2].count, Some(1));
    assert_eq!(rows[3].title, "Editor");
    assert_eq!(rows[4].count, Some(2));
    let rows = fill_sidebar(&entries, &apps, false, &english);
    assert_eq!(rows.len(), 5);
    assert_eq!(rows[3].title, "Images");
    assert_eq!(rows[3].count, Some(2));
    assert_eq!(rows[3].icon_mimes, vec!["image/png".to_string(), "image/jpeg".to_string()]);
    assert!(rows[0].icon_mimes.is_empty());
    assert_eq!(rows[4].title, "Text");
    assert!(rows[4].selection == Selection::Media("Text".into()));
}

#[test]
fn chooser_offers_qualifying_apps_and_a_hand_set_default() {
    let apps = installed_apps(&[
        record("b.desktop", "Browser", &["x-scheme-handler/https", "text/html"]),
        record("e.desktop", "Editor", &["text/plain"]),
        record("v.desktop", "Viewer", &["image/png"]),
    ]);
    let browser = default_categories()[0];
    let images = default_categories()[3];
    assert_eq!(default_candidates(&apps, browser, None), vec![0]);
    assert_eq!(default_candidates(&apps, browser, Some("e.desktop")), vec![0, 1]);
    assert_eq!(default_candidates(&apps, browser, Some("b.desktop")), vec![0]);
    assert_eq!(default_candidates(&apps, images, Some("gone.desktop")), vec![2]);

    let overrides = TypeSet::from_strs(&["x-scheme-handler/https"]);
    let owner = category_default(&apps, &overrides, browser, |_: &str| Some("e.desktop".to_string()));
    assert!(matches!(owner, Some(DefaultOwner::Listed(1))));
    let owner = category_default(&apps, &overrides, browser, |_: &str| Some("gone.desktop".to_string()));
    assert!(matches!(owner, Some(DefaultOwner::Unlisted(id)) if id == "gone.desktop"));
    let owner = category_default(&apps, &TypeSet::new(), browser, |_: &str| Some("e.desktop".to_string()));
    assert!(owner.is_none());
}

#[test]
fn dialog_text() {
    let (heading, body) = assign_prompt("Viewer", Some("Images"), 4, 0, &english);
    assert_eq!(heading, "Use Viewer for Images?");
    assert_eq!(body, "Viewer already opens all 4 of those Images file types.");
    let (heading, body) = assign_prompt("Viewer", None, 10, 3, &english);
    assert_eq!(heading, "Use Viewer for All Supported Types?");
    assert_eq!(
        body,
        "Viewer supports 10 file types and would take over 3 of them from another application."
    );
    let owned: Vec<String> = vec!["a/1".into(), "a/2".into(), "a/3".into()];
    let mimes: Vec<&String> = owned.iter().collect();
    assert_eq!(count_changing(&mimes, |m: &str| m == "a/2"), 2);
    assert_eq!(reset_all_body(2, &english), "2 file types go back to the application the system chose.");
    assert_eq!(reset_all_done(2, &english), "Reset 2 file types");
    assert_eq!(default_heading("Mail", &english), "Default Mail");
    assert_eq!(default_assigned("Mailer", "Mail", 0, None, &english), "Mailer is now the default for Mail");
    assert_eq!(
        default_assigned("Mailer", "Mail", 1, Some("denied"), &english),
        "1 of the Mail types could not be set: denied"
    );
    assert_eq!(default_subtitle(None, &english), "Not set");
    assert_eq!(default_subtitle(Some("Mailer"), &english), "Mailer");
    assert_eq!(chosen_default("Viewer", "image/png", None, &english), "Viewer now opens image/png");
    assert_eq!(chosen_default("Viewer", "image/png", Some("no"), &english), "Could not set default: no");
    assert_eq!(reset_done("image/png", &english), "Reset image/png to the system default");
    assert_eq!(
        no_candidates_body("x/y", &english),
        "x/y\n\nNo installed application declares support for this type."
    );
    assert_eq!(header_label("Images", 12), "Images (12)");
    assert_eq!(
        fill_row_label("{description}, {mime}, opens with {app}", "PNG image", "image/png", Some("Viewer")),
        "PNG image, image/png, opens with Viewer"
    );
    assert_eq!(
        fill_group_tooltip("Use {app} for all {count} {group} file types", "Viewer", "Images", 7),
        "Use Viewer for all 7 Images file types"
    );
}

#[test]
fn counted_messages_take_the_singular_for_one() {
    assert_eq!(reset_all_done(1, &english), "Reset 1 file type");
    assert_eq!(reset_all_body(1, &english), "1 file type goes back to the application the system chose.");
    assert_eq!(
        group_tooltip("Viewer", "Images", 1, &english),
        "Use Viewer for the one Images file type"
    );
    assert_eq!(group_tooltip("Viewer", "Images", 3, &english), "Use Viewer for all 3 Images file types");
    let (_, body) = assign_prompt("Viewer", Some("Images"), 1, 1, &english);
    assert_eq!(
        body,
        "Viewer supports the one Images file type and would take it over from another application."
    );
    let message = reset_all_done_message(5);
    assert_eq!(message.id, "Reset {count} file type");
    assert_eq!(message.plural, Some(("Reset {count} file types", 5)));
    let message = group_tooltip_message(2);
    assert_eq!(message.plural.map(|p| p.1), Some(2));
}

#[test]
fn row_labels_name_the_application_that_opens_the_type() {
    assert_eq!(
        row_label_message(Some("Viewer")).id,
        "{description}, {mime}, opens with {app}"
    );
    assert_eq!(
        row_label_message(None).id,
        "{description}, {mime}, no default application"
    );
    assert_eq!(
        row_label("PNG image", "image/png", Some("Viewer"), &english),
        "PNG image, image/png, opens with Viewer"
    );
    assert_eq!(
        row_label("PNG image", "image/png", None, &english),
        "PNG image, image/png, no default application"
    );
}

#[test]
fn fixed_titles_and_header_buttons() {
    assert_eq!(title_message(&Selection::Defaults).map(|m| m.id), Some("Default Apps"));
    assert_eq!(title_message(&Selection::Modified).map(|m| m.id), Some("Modified"));
    assert!(title_message(&Selection::App("v.desktop".into())).is_none());
    let apps = installed_apps(&[
        record("v.desktop", "Viewer", &["image/png"]),
        record("e.desktop", "Editor", &["text/plain"]),
    ]);
    assert_eq!(header_button_app(&Selection::App("v.desktop".into()), &apps), Some(1));
    assert_eq!(header_button_app(&Selection::App("gone.desktop".into()), &apps), None);
    assert_eq!(header_button_app(&Selection::All, &apps), None);
}

fn marked(message: &Message) -> String {
    format!("» {}", english(message))
}

#[test]
fn texts_come_from_the_translator() {
    assert_eq!(reset_done("image/png", &marked), "» Reset image/png to the system default");
    assert_eq!(default_subtitle(None, &marked), "» Not set");
    assert_eq!(default_subtitle(Some("Mailer"), &marked), "Mailer");
    assert_eq!(media_group("image/png", &marked), "» Images");
    assert_eq!(media_group("chemical/x-pdb", &marked), "Chemical");
    assert_eq!(selection_title(&Selection::Modified, &[], &marked), "» Modified");
    let (heading, body) = assign_prompt("Viewer", None, 2, 0, &marked);
    assert_eq!(heading, "» Use Viewer for All Supported Types?");
    assert_eq!(body, "» Viewer already opens all 2 of those file types.");
}

#[test]
fn templates_are_filled_in() {
    assert_eq!(
        fill_assign_heading("{app} → {group}", "Viewer", Some("Images")),
        "Viewer → Images"
    );
    assert_eq!(
        fill_assign_body("{app}: {changing}/{total} {group}", "Viewer", Some("Images"), 5, 2),
        "Viewer: 2/5 Images"
    );
    assert_eq!(
        fill_default_assigned("{failed}×{title}: {error}", "Mailer", "Mail", 3, Some("no")),
        "3×Mail: no"
    );
    assert_eq!(
        fill_chosen_default("{app} ⇒ {mime}", "Viewer", "image/png", None),
        "Viewer ⇒ image/png"
    );
    assert_eq!(fill_count("[{count}]", 42), "[42]");
    assert_eq!(fill_placeholder("a {x} b {x}", "{x}", "y"), "a y b y");
    assert_eq!(
        fill_report("{app}+{count}-{failed}:{error}", "Viewer", 4, 1, Some("denied")),
        "Viewer+4-1:denied"
    );
}
