use mimebind::category::{
    category_owner, default_categories, is_default_type, DefaultCategory, DefaultKind,
};
use mimebind::typeset::TypeSet;

fn types(list: &[&str]) -> TypeSet {
    TypeSet::from_strs(list)
}

fn category(title: &str) -> DefaultCategory {
    *default_categories()
        .iter()
        .find(|category| category.title == title)
        .unwrap()
}

/// A category belongs to the applications that claim it, not to whatever the
/// MIME database happens to route there: an editor inherits SVG and
/// iCalendar from text/plain and is neither an image viewer nor a calendar.
#[test]
fn categories_ignore_applications_that_only_inherit_the_types() {
    let editor = types(&["text/plain"]);
    let viewer = types(&["image/png", "image/jpeg"]);
    let no_overrides = TypeSet::new();

    assert!(!category("Images").qualifies(&editor));
    assert!(!category("Calendar").qualifies(&editor));
    assert!(category("Images").qualifies(&viewer));

    let declared: Vec<(&str, &TypeSet)> = vec![("editor", &editor)];
    let resolve = |_: &str| Some("editor".to_string());
    assert_eq!(
        category_owner(&declared, &no_overrides, category("Images"), resolve),
        None
    );
    assert_eq!(
        category_owner(&declared, &no_overrides, category("Calendar"), resolve),
        None
    );
}

/// A media category is a family: owning any declared part of it is enough,
/// even when the anchor type itself has no default. The narrow categories
/// have no such fallback.
#[test]
fn media_categories_fall_back_to_the_family() {
    let viewer = types(&["image/jpeg"]);
    let browser = types(&["text/html"]);
    let declared: Vec<(&str, &TypeSet)> = vec![("viewer", &viewer), ("browser", &browser)];
    let no_overrides = TypeSet::new();

    let resolve = |mime: &str| (mime == "image/jpeg").then(|| "viewer".to_string());
    assert_eq!(
        category_owner(&declared, &no_overrides, category("Images"), resolve),
        Some("viewer".to_string())
    );

    let resolve = |mime: &str| (mime == "text/html").then(|| "browser".to_string());
    assert_eq!(
        category_owner(&declared, &no_overrides, category("Web Browser"), resolve),
        None
    );
}

/// Hiding a default the user set by hand would make this page lie about a
/// change they made elsewhere in the same application.
#[test]
fn a_hand_set_default_is_reported_even_when_it_does_not_qualify() {
    let editor = types(&["text/plain"]);
    let declared: Vec<(&str, &TypeSet)> = vec![("editor", &editor)];
    let resolve = |_: &str| Some("editor".to_string());

    let overrides = types(&["text/calendar"]);
    assert_eq!(
        category_owner(&declared, &overrides, category("Calendar"), resolve),
        Some("editor".to_string())
    );
    assert_eq!(
        category_owner(&declared, &TypeSet::new(), category("Calendar"), resolve),
        None
    );
}

#[test]
fn default_categories_have_strict_boundaries() {
    assert!(is_default_type(
        "x-scheme-handler/https",
        DefaultKind::Browser
    ));
    assert!(is_default_type("text/html", DefaultKind::Browser));
    assert!(!is_default_type(
        "x-scheme-handler/mailto",
        DefaultKind::Browser
    ));
    assert!(is_default_type("message/rfc822", DefaultKind::Mail));
    assert!(is_default_type(
        "x-scheme-handler/mailto",
        DefaultKind::Mail
    ));
    assert!(!is_default_type("text/calendar", DefaultKind::Mail));
    assert!(is_default_type("text/calendar", DefaultKind::Calendar));
    assert!(is_default_type(
        "x-scheme-handler/webcal",
        DefaultKind::Calendar
    ));
    assert!(!is_default_type(
        "x-scheme-handler/mailto",
        DefaultKind::Calendar
    ));
    assert!(is_default_type("image/png", DefaultKind::Media("image")));
    assert!(!is_default_type(
        "application/x-image",
        DefaultKind::Media("image")
    ));
}
