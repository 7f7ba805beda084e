use mimebind::i18n::Message;
use mimebind::catalog::{
    build_catalog, expand_supported_types, installed_apps, installed_mime_types,
    known_mime_types, scoped_types, user_overrides, assign_types, already_opens, shorten_home, AppEntry,
    AppRecord,
    Assignment,
};
use mimebind::typeset::TypeSet;

fn english(message: &Message) -> String {
    match message.plural {
        Some((plural, n)) if n != 1 => plural.to_string(),
        _ => message.id.to_string(),
    }
}


fn record(id: Option<&str>, name: &str, types: &[&str]) -> AppRecord {
    AppRecord {
        id: id.map(|id| id.to_string()),
        name: name.to_string(),
        types: types.iter().map(|kind| kind.to_string()).collect(),
    }
}

fn names(set: &TypeSet) -> Vec<String> {
    (0..set.len()).map(|i| set.get(i).clone()).collect()
}

/// The subtype relation of a small MIME database.
fn is_a(kind: &str, parent: &str) -> bool {
    matches!(
        (kind, parent),
        ("text/rust", "text/plain")
            | ("text/x-c++src", "text/plain")
            | ("image/svg+xml", "text/plain")
            | ("text/calendar", "text/plain")
            | ("application/xhtml+xml", "text/html")
    )
}

/// An application that claims a supertype must be credited with the subtypes
/// the MIME database derives from it, or an editor claiming `text/plain`
/// looks like it cannot open source files.
#[test]
fn supported_types_follow_the_mime_database() {
    let records = vec![
        record(Some("org.example.Editor.desktop"), "Editor", &["text/plain"]),
        record(Some("org.example.Browser.desktop"), "Browser", &["text/html"]),
        record(Some("org.example.Viewer.desktop"), "Viewer", &["image/png"]),
    ];
    let files = vec![
        "text/plain\ntext/rust\n  text/x-c++src  \n\nimage/svg+xml\ntext/calendar\n".to_string(),
        "text/html\napplication/xhtml+xml\nimage/png\n".to_string(),
    ];
    let declared = installed_apps(&records);
    let known = known_mime_types(&files, &declared);
    let mut expanded = installed_apps(&records);
    expand_supported_types(&mut expanded, &known, is_a);

    let Some(position) = declared
        .iter()
        .position(|app| app.types.contains("text/plain"))
    else {
        return;
    };

    let gained: Vec<String> = names(&expanded[position].types)
        .into_iter()
        .filter(|kind| !declared[position].types.contains(kind))
        .collect();
    assert!(
        !gained.is_empty(),
        "{} gained no subtypes of text/plain",
        declared[position].name
    );
    for kind in gained {
        assert!(
            names(&declared[position].types)
                .iter()
                .any(|parent| is_a(&kind, parent)),
            "{kind} is not a subtype of anything {} declares",
            declared[position].name
        );
    }
}

#[test]
fn installed_apps_merge_records_and_sort_by_name() {
    let records = vec![
        record(Some("b.desktop"), "zed", &["text/plain"]),
        record(None, "Nameless", &["text/plain"]),
        record(Some("c.desktop"), "Empty", &[]),
        record(Some("a.desktop"), "Alpha", &["image/png", "image/png"]),
        record(Some("b.desktop"), "Zed Again", &["text/x-c"]),
        record(Some("d.desktop"), "alpha", &["audio/mpeg"]),
    ];
    let apps = installed_apps(&records);
    let ids: Vec<&str> = apps.iter().map(|app| app.id.as_str()).collect();
    assert_eq!(ids, vec!["a.desktop", "d.desktop", "b.desktop"]);
    assert_eq!(apps[2].name, "zed");
    assert_eq!(names(&apps[2].declared), vec!["text/plain", "text/x-c"]);
    assert_eq!(names(&apps[2].types), vec!["text/plain", "text/x-c"]);
    assert_eq!(apps[2].source, 0);
    assert_eq!(names(&apps[0].declared), vec!["image/png"]);
    assert_eq!(apps[0].source, 3);
    assert_eq!(apps[1].source, 5);
}

#[test]
fn known_types_trim_lines_and_add_what_applications_declare() {
    let apps = installed_apps(&[record(Some("e.desktop"), "E", &["x-custom/thing"])]);
    let files = vec![" text/plain \r\n\n\t\nimage/png".to_string()];
    let known = known_mime_types(&files, &apps);
    assert_eq!(names(&known), vec!["image/png", "text/plain", "x-custom/thing"]);
}

#[test]
fn expansion_folds_in_known_subtypes_only() {
    let records = vec![record(Some("e.desktop"), "Editor", &["text/plain"])];
    let mut apps = installed_apps(&records);
    let known = TypeSet::from_strs(&["text/plain", "text/rust"]);
    expand_supported_types(&mut apps, &known, is_a);
    assert_eq!(names(&apps[0].types), vec!["text/plain", "text/rust"]);
    assert_eq!(names(&apps[0].declared), vec!["text/plain"]);
}

#[test]
fn build_catalog_credits_subtypes() {
    let records = vec![
        record(Some("e.desktop"), "Editor", &["text/plain"]),
        record(Some("v.desktop"), "Viewer", &["image/png"]),
    ];
    let files = vec!["text/rust\nimage/svg+xml\n".to_string()];
    let apps = build_catalog(&records, &files, is_a);
    assert_eq!(apps.len(), 2);
    assert_eq!(apps[0].id, "e.desktop");
    assert_eq!(
        names(&apps[0].types),
        vec!["image/svg+xml", "text/plain", "text/rust"]
    );
    assert_eq!(names(&apps[1].types), vec!["image/png"]);
    assert_eq!(
        names(&installed_mime_types(&apps)),
        vec!["image/png", "image/svg+xml", "text/plain", "text/rust"]
    );
}

#[test]
fn user_overrides_read_only_the_default_applications_section() {
    let text = "[Added Associations]\ntext/plain=editor.desktop;\n\n[Default Applications]\n  image/png = viewer.desktop\ntext/html=browser.desktop\nno equals sign\n[]\nvideo/mp4=player.desktop\n[Default Applications]\naudio/mpeg=player.desktop;\n";
    let overrides = user_overrides(text);
    assert_eq!(names(&overrides), vec!["audio/mpeg", "image/png", "text/html"]);
    assert!(user_overrides("").is_empty());
}

fn app_with(types: &[&str]) -> AppEntry {
    installed_apps(&[record(Some("app.desktop"), "App", types)]).remove(0)
}

#[test]
fn scoped_types_limit_to_one_group() {
    let app = app_with(&["image/png", "text/plain", "image/jpeg", "x-foo/bar"]);
    let all: Vec<&str> = scoped_types(&app, None, &english).into_iter().map(|m| m.as_str()).collect();
    assert_eq!(all, vec!["image/jpeg", "image/png", "text/plain", "x-foo/bar"]);
    let images: Vec<&str> = scoped_types(&app, Some("Images"), &english)
        .into_iter()
        .map(|m| m.as_str())
        .collect();
    assert_eq!(images, vec!["image/jpeg", "image/png"]);
    let custom: Vec<&str> = scoped_types(&app, Some("X-foo"), &english)
        .into_iter()
        .map(|m| m.as_str())
        .collect();
    assert_eq!(custom, vec!["x-foo/bar"]);
}

#[test]
fn assign_types_counts_and_keeps_the_first_refusal() {
    let mimes_owned: Vec<String> = ["a/1", "a/2", "a/3", "a/4", "a/5"]
        .iter()
        .map(|m| m.to_string())
        .collect();
    let mimes: Vec<&String> = mimes_owned.iter().collect();
    let outcome = assign_types(
        &mimes,
        |mime: &str| mime == "a/1",
        |mime: &str| match mime {
            "a/3" => Err("first refusal".to_string()),
            "a/5" => Err("second refusal".to_string()),
            _ => Ok(()),
        },
    );
    assert_eq!(outcome.set, 2);
    assert_eq!(outcome.failed, 2);
    assert_eq!(outcome.error.as_deref(), Some("first refusal"));
    assert_eq!(
        outcome.report("Viewer", &english),
        "Viewer now opens 2 more file types, 2 could not be set: first refusal"
    );
}

#[test]
fn assignment_reports() {
    let nothing = Assignment { set: 0, failed: 0, error: None };
    assert_eq!(nothing.report("Viewer", &english), "Viewer already opened every type it supports");
    let some = Assignment { set: 12, failed: 0, error: None };
    assert_eq!(some.report("Viewer", &english), "Viewer now opens 12 more file types");
}

#[test]
fn installed_apps_ignore_case_when_ordering() {
    let records = vec![
        record(Some("zebra.desktop"), "Zebra", &["image/png"]),
        record(Some("apple.desktop"), "apple", &["image/png"]),
    ];
    let apps = installed_apps(&records);
    let ids: Vec<&str> = apps.iter().map(|app| app.id.as_str()).collect();
    assert_eq!(ids, vec!["apple.desktop", "zebra.desktop"]);
}

#[test]
fn reports_count_in_the_right_form() {
    let one = Assignment { set: 1, failed: 0, error: None };
    assert_eq!(one.report("Viewer", &english), "Viewer now opens 1 more file type");
    let refused = Assignment { set: 1, failed: 3, error: Some("denied".to_string()) };
    assert_eq!(
        refused.report("Viewer", &english),
        "Viewer now opens 1 more file type, 3 could not be set: denied"
    );
    assert_eq!(one.report_message().id, "{app} now opens {count} more file type");
}

#[test]
fn an_application_already_opens_what_it_is_current_for() {
    assert!(already_opens("v.desktop", Some("v.desktop")));
    assert!(!already_opens("v.desktop", Some("e.desktop")));
    assert!(!already_opens("v.desktop", None));
}

#[test]
fn paths_below_home_are_shortened() {
    assert_eq!(shorten_home("/home/u/.config/mimeapps.list", "/home/u"), "~/.config/mimeapps.list");
    assert_eq!(shorten_home("/etc/xdg/mimeapps.list", "/home/u"), "/etc/xdg/mimeapps.list");
    assert_eq!(shorten_home("/home/user2/mimeapps.list", "/home/u"), "/home/user2/mimeapps.list");
}
