//! What the window shows: which types the sidebar selection lists, which page
//! and controls are visible, and what the list holds.
use crate::catalog::{all_types, installed_mime_types, AppEntry};
use crate::category::first_with_id;
use crate::entry::MimeEntry;
use crate::i18n::{can_translate, fixed, msg_view, text_of, translated, Message};
use crate::text::same_text;
use crate::typeset::TypeSet;
use vstd::prelude::*;
use vstd::std_specs::cmp::PartialEqSpecImpl;

verus! {

/// What the sidebar selection narrows the list to.
pub enum Selection {
    Defaults,
    All,
    Modified,
    /// Every type the application with this id can open.
    App(String),
    /// Every type in this media group.
    Media(String),
}

/// Two selections pick the same thing.
pub open spec fn same_selection(a: Selection, b: Selection) -> bool {
    match (a, b) {
        (Selection::Defaults, Selection::Defaults) => true,
        (Selection::All, Selection::All) => true,
        (Selection::Modified, Selection::Modified) => true,
        (Selection::App(x), Selection::App(y)) => x@ == y@,
        (Selection::Media(x), Selection::Media(y)) => x@ == y@,
        _ => false,
    }
}

impl PartialEq for Selection {
    fn eq(&self, other: &Self) -> (r: bool) {
        match (self, other) {
            (Selection::Defaults, Selection::Defaults) => true,
            (Selection::All, Selection::All) => true,
            (Selection::Modified, Selection::Modified) => true,
            (Selection::App(x), Selection::App(y)) => same_text(x.as_str(), y.as_str()),
            (Selection::Media(x), Selection::Media(y)) => same_text(x.as_str(), y.as_str()),
            _ => false,
        }
    }
}

impl PartialEqSpecImpl for Selection {
    open spec fn obeys_eq_spec() -> bool {
        true
    }

    open spec fn eq_spec(&self, other: &Self) -> bool {
        same_selection(*self, *other)
    }
}

impl Selection {
    /// A copy of this selection.
    pub fn duplicate(&self) -> (r: Selection)
        ensures
            same_selection(r, *self),
    {
        match self {
            Selection::Defaults => Selection::Defaults,
            Selection::All => Selection::All,
            Selection::Modified => Selection::Modified,
            Selection::App(id) => Selection::App(id.clone()),
            Selection::Media(group) => Selection::Media(group.clone()),
        }
    }
}

/// Whether the list shows a type under the selection: nothing on the
/// Default Apps page, everything under All File Types, the user's own
/// choices under Modified, what the application opens, or one media group.
pub open spec fn shows_spec(
    selection: Selection,
    catalog: Seq<AppEntry>,
    mime: Seq<char>,
    group: Seq<char>,
    modified: bool,
) -> bool {
    match selection {
        Selection::Defaults => false,
        Selection::All => true,
        Selection::Modified => modified,
        Selection::App(id) => exists|p: int|
            #[trigger] first_with_id(catalog, id@, p) && catalog[p].types@.contains(mime),
        Selection::Media(g) => group == g@,
    }
}

/// Whether the first application with this id opens `mime`.
fn app_opens(catalog: &[AppEntry], id: &str, mime: &str) -> (r: bool)
    ensures
        r == exists|p: int| #[trigger] first_with_id(catalog@, id@, p) && catalog@[p].types@.contains(mime@),
{
    match crate::category::position_of(catalog, id) {
        Some(p) => {
            let found = catalog[p].types.contains(mime);
            proof {
                if !found {
                    assert forall|q: int|
                        #[trigger] first_with_id(catalog@, id@, q) implies !catalog@[q].types@.contains(mime@) by {
                        if q > p {
                            assert(catalog@[p as int].id@ != id@);
                        } else if q < p {
                            assert(catalog@[q].id@ != id@);
                        }
                    }
                }
            }
            found
        },
        None => {
            proof {
                assert forall|q: int| #[trigger] first_with_id(catalog@, id@, q) implies false by {
                    assert(catalog@[q].id@ != id@);
                }
            }
            false
        },
    }
}

/// Whether the list shows `entry` under the selection.
pub fn shows(selection: &Selection, catalog: &[AppEntry], entry: &MimeEntry) -> (r: bool)
    ensures
        r == shows_spec(
            *selection,
            catalog@,
            entry.mime_view(),
            entry.type_group_view(),
            entry.modified_view(),
        ),
{
    match selection {
        Selection::Defaults => false,
        Selection::All => true,
        Selection::Modified => entry.modified(),
        Selection::App(id) => app_opens(catalog, id.as_str(), entry.mime().as_str()),
        Selection::Media(group) => same_text(entry.type_group().as_str(), group.as_str()),
    }
}

/// Which page the content area shows.
pub enum Page {
    /// The Default Apps page.
    Defaults,
    /// The list of types.
    List,
    /// Nothing modified yet, and where changes are saved.
    NothingChanged,
    /// No type matches the search.
    NoMatches,
}

/// What the content area looks like for a selection and a number of matching types.
pub struct ViewPlan {
    /// Whether the list has section headers.
    pub headers: bool,
    /// The application whose bulk button the headers carry, by id.
    pub header_app: Option<String>,
    /// Whether "Reset All" is offered.
    pub reset_all_visible: bool,
    pub page: Page,
}

/// Whether section headers are shown: not on the Default Apps page, and not
/// for a single media group, whose name is the title.
pub open spec fn headers_spec(selection: Selection) -> bool {
    !(selection is Defaults || selection is Media)
}

/// The page shown for a selection with `count` matching types.
pub open spec fn page_spec(selection: Selection, count: nat) -> Page {
    if selection is Defaults {
        Page::Defaults
    } else if count > 0 {
        Page::List
    } else if selection is Modified {
        Page::NothingChanged
    } else {
        Page::NoMatches
    }
}

/// How the content area looks for `selection` when `count` types match it.
pub fn view_plan(selection: &Selection, count: usize) -> (r: ViewPlan)
    ensures
        r.headers == headers_spec(*selection),
        match *selection {
            Selection::App(id) => r.header_app matches Some(h) && h@ == id@,
            _ => r.header_app is None,
        },
        r.reset_all_visible == (selection is Modified && count > 0),
        r.page == page_spec(*selection, count as nat),
{
    let headers = match selection {
        Selection::Defaults => false,
        Selection::Media(_) => false,
        _ => true,
    };
    let header_app = match selection {
        Selection::App(id) => Some(id.clone()),
        _ => None,
    };
    let modified = match selection {
        Selection::Modified => true,
        _ => false,
    };
    let page = match selection {
        Selection::Defaults => Page::Defaults,
        _ => if count > 0 {
            Page::List
        } else if modified {
            Page::NothingChanged
        } else {
            Page::NoMatches
        },
    };
    ViewPlan { headers, header_app, reset_all_visible: modified && count > 0, page }
}

/// Which header controls a selection offers.
pub struct Controls {
    /// "Use for All": assigning every type of the selected application.
    pub use_all_visible: bool,
    /// The search button, and typing to search.
    pub search_visible: bool,
}

/// The header controls for a selection: bulk assignment for an application,
/// search everywhere but the Default Apps page.
pub fn controls(selection: &Selection) -> (r: Controls)
    ensures
        r.use_all_visible == selection is App,
        r.search_visible == !(selection is Defaults),
{
    Controls {
        use_all_visible: match selection {
            Selection::App(_) => true,
            _ => false,
        },
        search_visible: match selection {
            Selection::Defaults => false,
            _ => true,
        },
    }
}

/// The message of a selection's fixed title: Default Apps, All File Types
/// and Modified have one; an application or a media group is shown by name.
pub fn title_message(selection: &Selection) -> (m: Option<Message>)
    ensures
        match *selection {
            Selection::Defaults => m matches Some(x) && msg_view(x) == fixed("Default Apps"@),
            Selection::All => m matches Some(x) && msg_view(x) == fixed("All File Types"@),
            Selection::Modified => m matches Some(x) && msg_view(x) == fixed("Modified"@),
            _ => m is None,
        },
{
    match selection {
        Selection::Defaults => Some(Message { id: "Default Apps", plural: None }),
        Selection::All => Some(Message { id: "All File Types", plural: None }),
        Selection::Modified => Some(Message { id: "Modified", plural: None }),
        _ => None,
    }
}

/// The fixed title of a selection, as the message view `title_message` gives.
pub open spec fn title_msg(selection: Selection) -> (Seq<char>, Option<(Seq<char>, u32)>) {
    match selection {
        Selection::Defaults => fixed("Default Apps"@),
        Selection::All => fixed("All File Types"@),
        _ => fixed("Modified"@),
    }
}

/// The title of the content page: a media group's name, an application's
/// name (its id when the catalog has no such application), or the text `tr`
/// gives for the selection's `title_message`.
pub fn selection_title<T: Fn(&Message) -> String>(selection: &Selection, catalog: &[AppEntry], tr: &T) -> (r: String)
    requires
        can_translate(*tr),
    ensures
        selection matches Selection::Media(g) ==> r@ == g@,
        selection matches Selection::App(id) ==> ((exists|p: int|
            #[trigger] first_with_id(catalog@, id@, p) && r@ == catalog@[p].name@) || ((forall|q: int|
            0 <= q < catalog@.len() ==> #[trigger] catalog@[q].id@ != id@) && r@ == id@)),
        (selection is Defaults || selection is All || selection is Modified) ==> translated(
            *tr,
            title_msg(*selection),
            r@,
        ),
{
    match selection {
        Selection::Media(group) => group.clone(),
        Selection::App(id) => match crate::category::position_of(catalog, id.as_str()) {
            Some(p) => catalog[p].name.clone(),
            None => id.clone(),
        },
        _ => {
            let m = title_message(selection).unwrap();
            text_of(tr, &m)
        },
    }
}

/// The position of the row to select after the sidebar is rebuilt: the one
/// for the selection kept, or the first.
pub fn selection_position(selections: &[Selection], keep: &Selection) -> (r: usize)
    ensures
        (r < selections@.len() && same_selection(selections@[r as int], *keep) && forall|q: int|
            0 <= q < r ==> !same_selection(#[trigger] selections@[q], *keep)) || (r == 0 && forall|
            q: int,
        | 0 <= q < selections@.len() ==> !same_selection(#[trigger] selections@[q], *keep)),
{
    let mut i: usize = 0;
    while i < selections.len()
        invariant
            i <= selections@.len(),
            forall|q: int| 0 <= q < i ==> !same_selection(#[trigger] selections@[q], *keep),
        decreases selections@.len() - i,
    {
        if selections[i].eq(keep) {
            return i;
        }
        i = i + 1;
    }
    0
}

/// The types the list holds: everything an installed application opens,
/// and every type the user assigned even when nothing installed declares it
/// any more, or "Modified" would hide part of what they changed.
pub fn list_types(catalog: &[AppEntry], overrides: &TypeSet) -> (r: TypeSet)
    ensures
        r@ == all_types(catalog@).union(overrides@),
{
    let mut r = installed_mime_types(catalog);
    r.extend(overrides);
    r
}

/// The application whose "Use for These" button the section headers carry:
/// the selected application, by its first position in the catalog; none
/// when no application is selected or the catalog has no such application.
pub fn header_button_app(selection: &Selection, catalog: &[AppEntry]) -> (r: Option<usize>)
    ensures
        match *selection {
            Selection::App(id) => match r {
                Some(p) => first_with_id(catalog@, id@, p as int),
                None => forall|q: int| 0 <= q < catalog@.len() ==> #[trigger] catalog@[q].id@ != id@,
            },
            _ => r is None,
        },
{
    match selection {
        Selection::App(id) => crate::category::position_of(catalog, id.as_str()),
        _ => None,
    }
}

/// The view of an application lists exactly the types it can open, those
/// its desktop file declares and the subtypes it is credited with, whatever
/// an entry's group or modified flag: the same types its sidebar row counts.
pub proof fn lemma_application_view_lists_its_types(
    selection: Selection,
    catalog: Seq<AppEntry>,
    p: int,
)
    requires
        selection matches Selection::App(id) && first_with_id(catalog, id@, p),
    ensures
        forall|mime: Seq<char>, group: Seq<char>, modified: bool|
            #[trigger] shows_spec(selection, catalog, mime, group, modified) <==> catalog[p].types@.contains(
                mime,
            ),
{
    let id = selection->App_0;
    assert forall|q: int| #[trigger] first_with_id(catalog, id@, q) implies q == p by {
        if q < p {
            assert(catalog[q].id@ != id@);
        } else if q > p {
            assert(catalog[p].id@ != id@);
        }
    }
}

/// Every type the user assigned appears in the list.
pub proof fn lemma_every_override_is_listed(catalog: Seq<AppEntry>, overrides: Set<Seq<char>>)
    ensures
        overrides.subset_of(all_types(catalog).union(overrides)),
{
}

} // verus!
