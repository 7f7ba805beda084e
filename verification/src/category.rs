//! The Default Apps categories and which application owns each.
use crate::catalog::AppEntry;
use crate::text::{chars_of, lemma_filter_empty, lemma_filter_step, lemma_text_lt_irreflexive, lemma_text_lt_transitive, occurs_at, same_text, starts_with, text_lt};
use crate::typeset::{ref_texts, TypeSet};
use vstd::prelude::*;

verus! {

/// What makes a type belong to a category.
#[derive(Clone, Copy)]
pub enum DefaultKind {
    Browser,
    Mail,
    Calendar,
    /// Every type of this top-level media type, such as `image`.
    Media(&'static str),
}

/// A row of the Default Apps page.
#[derive(Clone, Copy)]
pub struct DefaultCategory {
    pub title: &'static str,
    pub icon: &'static str,
    /// The type whose default the row reports.
    pub anchor: &'static str,
    pub kind: DefaultKind,
}

/// Whether `mime` names a type of the top-level media type `media`:
/// `media`, a slash, and at least nothing more.
pub open spec fn in_media(mime: Seq<char>, media: Seq<char>) -> bool {
    &&& media.len() < mime.len()
    &&& starts_with(mime, media)
    &&& mime[media.len() as int] == '/'
}

/// The types each kind of category stands for.
pub open spec fn is_default_type_spec(mime: Seq<char>, kind: DefaultKind) -> bool {
    match kind {
        DefaultKind::Browser => {
            ||| mime == "text/html"@
            ||| mime == "application/xhtml+xml"@
            ||| mime == "x-scheme-handler/http"@
            ||| mime == "x-scheme-handler/https"@
        },
        DefaultKind::Mail => {
            ||| mime == "message/rfc822"@
            ||| mime == "x-scheme-handler/mailto"@
        },
        DefaultKind::Calendar => {
            ||| mime == "text/calendar"@
            ||| mime == "x-scheme-handler/webcal"@
            ||| mime == "x-scheme-handler/webcals"@
        },
        DefaultKind::Media(media) => in_media(mime, media@),
    }
}

/// Whether `mime` belongs to categories of `kind`.
pub fn is_default_type(mime: &str, kind: DefaultKind) -> (r: bool)
    ensures
        r == is_default_type_spec(mime@, kind),
{
    match kind {
        DefaultKind::Browser => same_text(mime, "text/html") || same_text(
            mime,
            "application/xhtml+xml",
        ) || same_text(mime, "x-scheme-handler/http") || same_text(
            mime,
            "x-scheme-handler/https",
        ),
        DefaultKind::Mail => same_text(mime, "message/rfc822") || same_text(
            mime,
            "x-scheme-handler/mailto",
        ),
        DefaultKind::Calendar => same_text(mime, "text/calendar") || same_text(
            mime,
            "x-scheme-handler/webcal",
        ) || same_text(mime, "x-scheme-handler/webcals"),
        DefaultKind::Media(media) => {
            let m = chars_of(mime);
            let p = chars_of(media);
            if p.len() < m.len() && occurs_at(m.as_slice(), 0, p.as_slice()) {
                assert(m@.skip(0) =~= m@);
                m[p.len()] == '/'
            } else {
                assert(m@.skip(0) =~= m@);
                false
            }
        },
    }
}

/// Whether an application that declares `declared` can be offered for the
/// category: any declared member of a media family, or the anchor itself.
pub open spec fn qualifies_spec(category: DefaultCategory, declared: Set<Seq<char>>) -> bool {
    match category.kind {
        DefaultKind::Media(_) => exists|m: Seq<char>|
            declared.contains(m) && #[trigger] is_default_type_spec(m, category.kind),
        _ => declared.contains(category.anchor@),
    }
}

impl DefaultCategory {
    /// Whether an application can be offered for this category. Only what the
    /// desktop file declares counts: SVG and iCalendar are `text/plain` subtypes,
    /// so every code editor inherits them, and none of them is an image viewer or
    /// a calendar. Any part of a media family qualifies; the other categories
    /// need the anchor itself.
    pub fn qualifies(&self, declared: &TypeSet) -> (r: bool)
        ensures
            r == qualifies_spec(*self, declared@),
    {
        match self.kind {
            DefaultKind::Media(_) => {
                let mut i: usize = 0;
                while i < declared.len()
                    invariant
                        self.kind is Media,
                        i <= declared.seq().len(),
                        forall|k: int|
                            0 <= k < i ==> !is_default_type_spec(
                                #[trigger] declared.seq()[k],
                                self.kind,
                            ),
                    decreases declared.seq().len() - i,
                {
                    if is_default_type(declared.get(i).as_str(), self.kind) {
                        assert(declared@.contains(declared.seq()[i as int]));
                        return true;
                    }
                    i = i + 1;
                }
                assert forall|m: Seq<char>|
                    declared@.contains(m) implies !#[trigger] is_default_type_spec(
                    m,
                    self.kind,
                ) by {
                    let k = choose|k: int| 0 <= k < declared.seq().len() && declared.seq()[k] == m;
                }
                false
            },
            _ => declared.contains(self.anchor),
        }
    }
}

/// The categories of the Default Apps page, in the order shown.
pub open spec fn default_categories_spec() -> Seq<DefaultCategory> {
    seq![
        DefaultCategory {
            title: "Web Browser",
            icon: "web-browser-symbolic",
            anchor: "x-scheme-handler/https",
            kind: DefaultKind::Browser,
        },
        DefaultCategory {
            title: "Mail",
            icon: "mail-unread-symbolic",
            anchor: "x-scheme-handler/mailto",
            kind: DefaultKind::Mail,
        },
        DefaultCategory {
            title: "Calendar",
            icon: "x-office-calendar-symbolic",
            anchor: "text/calendar",
            kind: DefaultKind::Calendar,
        },
        DefaultCategory {
            title: "Images",
            icon: "image-x-generic-symbolic",
            anchor: "image/png",
            kind: DefaultKind::Media("image"),
        },
        DefaultCategory {
            title: "Audio",
            icon: "audio-x-generic-symbolic",
            anchor: "audio/mpeg",
            kind: DefaultKind::Media("audio"),
        },
        DefaultCategory {
            title: "Video",
            icon: "video-x-generic-symbolic",
            anchor: "video/mp4",
            kind: DefaultKind::Media("video"),
        },
    ]
}

/// The categories of the Default Apps page: the web browser, mail, calendar,
/// images, audio and video.
pub fn default_categories() -> (r: Vec<DefaultCategory>)
    ensures
        r@ == default_categories_spec(),
{
    let r = vec![
        DefaultCategory {
            title: "Web Browser",
            icon: "web-browser-symbolic",
            anchor: "x-scheme-handler/https",
            kind: DefaultKind::Browser,
        },
        DefaultCategory {
            title: "Mail",
            icon: "mail-unread-symbolic",
            anchor: "x-scheme-handler/mailto",
            kind: DefaultKind::Mail,
        },
        DefaultCategory {
            title: "Calendar",
            icon: "x-office-calendar-symbolic",
            anchor: "text/calendar",
            kind: DefaultKind::Calendar,
        },
        DefaultCategory {
            title: "Images",
            icon: "image-x-generic-symbolic",
            anchor: "image/png",
            kind: DefaultKind::Media("image"),
        },
        DefaultCategory {
            title: "Audio",
            icon: "audio-x-generic-symbolic",
            anchor: "audio/mpeg",
            kind: DefaultKind::Media("audio"),
        },
        DefaultCategory {
            title: "Video",
            icon: "video-x-generic-symbolic",
            anchor: "video/mp4",
            kind: DefaultKind::Media("video"),
        },
    ];
    assert(r@ =~= default_categories_spec());
    r
}

/// The types of `app` that categories of `kind` stand for, in order.
pub fn default_types(app: &AppEntry, kind: DefaultKind) -> (r: Vec<&String>)
    ensures
        ref_texts(r@) == app.types.seq().filter(|m: Seq<char>| is_default_type_spec(m, kind)),
{
    let ghost pred = |m: Seq<char>| is_default_type_spec(m, kind);
    let mut r: Vec<&String> = Vec::new();
    let mut i: usize = 0;
    proof {
        lemma_filter_empty(app.types.seq(), pred);
    }
    while i < app.types.len()
        invariant
            i <= app.types.seq().len(),
            pred == (|m: Seq<char>| is_default_type_spec(m, kind)),
            ref_texts(r@) == app.types.seq().take(i as int).filter(pred),
        decreases app.types.seq().len() - i,
    {
        let m = app.types.get(i);
        proof {
            lemma_filter_step(app.types.seq(), pred, i as int);
        }
        if is_default_type(m.as_str(), kind) {
            let ghost before = r@;
            r.push(m);
            assert(ref_texts(r@) =~= ref_texts(before).push(m@));
        }
        i = i + 1;
    }
    assert(app.types.seq().take(app.types.seq().len() as int) =~= app.types.seq());
    r
}

/// The declared types of applications, by id, as plain values.
pub open spec fn decl_view(d: Seq<(&str, &TypeSet)>) -> Seq<(Seq<char>, Set<Seq<char>>)> {
    d.map_values(|p: (&str, &TypeSet)| (p.0@, p.1@))
}

/// Every declared type, of any application, that categories of `kind` stand for.
pub open spec fn family(d: Seq<(Seq<char>, Set<Seq<char>>)>, kind: DefaultKind) -> Set<Seq<char>> {
    Set::new(
        |m: Seq<char>|
            is_default_type_spec(m, kind) && exists|i: int|
                0 <= i < d.len() && #[trigger] d[i].1.contains(m),
    )
}

/// Whether an application with this id declares what the category needs.
pub open spec fn claims(
    d: Seq<(Seq<char>, Set<Seq<char>>)>,
    category: DefaultCategory,
    id: Seq<char>,
) -> bool {
    exists|i: int| 0 <= i < d.len() && d[i].0 == id && #[trigger] qualifies_spec(category, d[i].1)
}

/// Which application a category reports, once it is known which application
/// currently opens its type: that one, if the user chose it by hand or it
/// declares what the category needs; otherwise none.
pub open spec fn owner_for(
    d: Seq<(Seq<char>, Set<Seq<char>>)>,
    overrides: Set<Seq<char>>,
    category: DefaultCategory,
    current: Option<Seq<char>>,
) -> Option<Seq<char>> {
    match current {
        None => None,
        Some(c) => if overrides.contains(category.anchor@) || claims(d, category, c) {
            Some(c)
        } else {
            None
        },
    }
}

/// The view of an optional string.
pub open spec fn opt_text(o: Option<String>) -> Option<Seq<char>> {
    match o {
        Some(s) => Some(s@),
        None => None,
    }
}

/// Every declared type of any application that categories of `kind` stand for,
/// in the order they are tried.
fn media_family(declared: &[(&str, &TypeSet)], kind: DefaultKind) -> (f: TypeSet)
    ensures
        f@ == family(decl_view(declared@), kind),
{
    let ghost d = decl_view(declared@);
    let mut f = TypeSet::new();
    let mut i: usize = 0;
    assert(f@ =~= family(d.take(0), kind));
    while i < declared.len()
        invariant
            i <= declared@.len(),
            d == decl_view(declared@),
            f@ == family(d.take(i as int), kind),
        decreases declared@.len() - i,
    {
        let types: &TypeSet = declared[i].1;
        assert(d[i as int].1 == types@);
        let ghost f0 = f@;
        let mut j: usize = 0;
        while j < types.len()
            invariant
                j <= types.seq().len(),
                forall|m: Seq<char>|
                    #![trigger f@.contains(m)]
                    f@.contains(m) <==> (f0.contains(m) || (is_default_type_spec(m, kind)
                        && exists|k: int| 0 <= k < j && types.seq()[k] == m)),
            decreases types.seq().len() - j,
        {
            let m = types.get(j);
            if is_default_type(m.as_str(), kind) {
                f.insert(m.clone());
            }
            j = j + 1;
        }
        assert(d.take(i + 1) =~= d.take(i as int).push(d[i as int]));
        assert forall|m: Seq<char>| f@.contains(m) <==> family(d.take(i + 1), kind).contains(m) by {
            if family(d.take(i + 1), kind).contains(m) {
                let k = choose|k: int| 0 <= k < d.take(i + 1).len() && #[trigger] d.take(i + 1)[k].1.contains(m);
                if k == i {
                    let q = choose|q: int| 0 <= q < types.seq().len() && types.seq()[q] == m;
                } else {
                    assert(d.take(i as int)[k].1.contains(m));
                }
            }
            if f0.contains(m) {
                let k = choose|k: int| 0 <= k < d.take(i as int).len() && #[trigger] d.take(i as int)[k].1.contains(m);
                assert(d.take(i + 1)[k].1.contains(m));
            }
            if !f0.contains(m) && f@.contains(m) {
                let q = choose|q: int| 0 <= q < j && types.seq()[q] == m;
                assert(types@.contains(m));
                assert(d.take(i + 1)[i as int].1.contains(m));
            }
        }
        assert(f@ =~= family(d.take(i + 1), kind));
        i = i + 1;
    }
    assert(d.take(declared@.len() as int) =~= d);
    f
}

/// Which application a category reports, given the one that currently opens
/// its type: kept if the user chose it by hand or it declares what the
/// category needs, dropped otherwise.
pub fn decide_owner(
    declared: &[(&str, &TypeSet)],
    overrides: &TypeSet,
    category: DefaultCategory,
    current: Option<String>,
) -> (r: Option<String>)
    ensures
        opt_text(r) == owner_for(decl_view(declared@), overrides@, category, opt_text(current)),
{
    let ghost d = decl_view(declared@);
    match current {
        None => None,
        Some(c) => {
            let chosen_by_hand = overrides.contains(category.anchor);
            let mut fits = false;
            let mut i: usize = 0;
            while i < declared.len() && !fits
                invariant
                    i <= declared@.len(),
                    d == decl_view(declared@),
                    fits ==> claims(d, category, c@),
                    !fits ==> forall|k: int|
                        0 <= k < i ==> !(d[k].0 == c@ && #[trigger] qualifies_spec(category, d[k].1)),
                decreases declared@.len() - i,
            {
                let (id, types) = declared[i];
                assert(d[i as int].0 == id@ && d[i as int].1 == types@);
                if same_text(id, c.as_str()) && category.qualifies(types) {
                    assert(qualifies_spec(category, d[i as int].1));
                    fits = true;
                }
                i = i + 1;
            }
            if chosen_by_hand || fits {
                Some(c)
            } else {
                None
            }
        },
    }
}

/// `resolve`, asked about `mime`, has answered `r`.
pub open spec fn answered<F: Fn(&str) -> Option<String>>(
    resolve: F,
    mime: Seq<char>,
    r: Option<Seq<char>>,
) -> bool {
    exists|s: &str, out: Option<String>|
        #[trigger] call_ensures(resolve, (s,), out) && s@ == mime && opt_text(out) == r
}

/// Which application can be taken to open the category's type, given what
/// `resolve` answered: the one that opens the anchor; failing that, for a
/// media category, the one that opens the first family member, in order,
/// that anything opens.
pub open spec fn current_from<F: Fn(&str) -> Option<String>>(
    resolve: F,
    d: Seq<(Seq<char>, Set<Seq<char>>)>,
    category: DefaultCategory,
    current: Option<Seq<char>>,
) -> bool {
    let fam = family(d, category.kind);
    match current {
        Some(x) => {
            ||| answered(resolve, category.anchor@, Some(x))
            ||| {
                &&& category.kind is Media
                &&& answered(resolve, category.anchor@, None)
                &&& exists|m: Seq<char>|
                    fam.contains(m) && #[trigger] answered(resolve, m, Some(x)) && forall|
                        e: Seq<char>,
                    |
                        fam.contains(e) && #[trigger] text_lt(e, m) ==> answered(resolve, e, None)
            }
        },
        None => {
            &&& answered(resolve, category.anchor@, None)
            &&& category.kind is Media ==> forall|e: Seq<char>|
                #[trigger] fam.contains(e) ==> answered(resolve, e, None)
        },
    }
}

/// Which application a category reports, as an id. `resolve` answers "which
/// application currently opens this type", so the rule itself stays testable.
///
/// A media category is a family of interchangeable types, so whatever opens any
/// of them owns it; the others are defined by their anchor alone, because an
/// editor that opens text/html is not the web browser. Only declared types count:
/// SVG and iCalendar are `text/plain` subtypes, so every code editor inherits
/// them and none of them is an image viewer or a calendar. The exception is a
/// default the user set by hand, which is their decision to report.
pub fn category_owner<F: Fn(&str) -> Option<String>>(
    declared: &[(&str, &TypeSet)],
    overrides: &TypeSet,
    category: DefaultCategory,
    resolve: F,
) -> (r: Option<String>)
    requires
        forall|s: &str| #[trigger] call_requires(resolve, (s,)),
    ensures
        exists|c: Option<Seq<char>>|
            current_from(resolve, decl_view(declared@), category, c) && opt_text(r) == owner_for(
                decl_view(declared@),
                overrides@,
                category,
                c,
            ),
{
    let ghost d = decl_view(declared@);
    let first = resolve(category.anchor);
    assert(answered(resolve, category.anchor@, opt_text(first)));
    let current = match first {
        Some(c) => Some(c),
        None => {
            match category.kind {
                DefaultKind::Media(_) => {
                    let fam = media_family(declared, category.kind);
                    proof {
                        use_type_invariant(&fam);
                        fam.lemma_order();
                    }
                    let mut found: Option<String> = None;
                    let mut i: usize = 0;
                    while i < fam.len() && found.is_none()
                        invariant
                            i <= fam.seq().len(),
                            fam.sorted(),
                            fam@ == family(d, category.kind),
                            forall|k: int| 0 <= k < i ==> #[trigger] answered(resolve, fam.seq()[k], None)
                                || (k == i - 1 && found is Some),
                            forall|s: &str| #[trigger] call_requires(resolve, (s,)),
                            found matches Some(x) ==> (i > 0 && answered(resolve, fam.seq()[i - 1], Some(x@))),
                        decreases fam.seq().len() - i,
                    {
                        let m = fam.get(i);
                        let answer = resolve(m.as_str());
                        assert(answered(resolve, fam.seq()[i as int], opt_text(answer)));
                        found = answer;
                        i = i + 1;
                    }
                    proof {
                        fam.lemma_order();
                        match &found {
                            Some(x) => {
                                let m = fam.seq()[i - 1];
                                assert(fam@.contains(m));
                                assert forall|e: Seq<char>|
                                    fam@.contains(e) && #[trigger] text_lt(e, m) implies answered(resolve, e, None) by {
                                    let k = choose|k: int| 0 <= k < fam.seq().len() && fam.seq()[k] == e;
                                    if k >= i - 1 {
                                        if k == i - 1 {
                                            lemma_text_lt_irreflexive(e);
                                        } else {
                                            lemma_text_lt_transitive(m, e, m);
                                            lemma_text_lt_irreflexive(m);
                                        }
                                    }
                                }
                                assert(current_from(resolve, d, category, Some(x@)));
                            },
                            None => {
                                assert forall|e: Seq<char>|
                                    #[trigger] fam@.contains(e) implies answered(resolve, e, None) by {
                                    let k = choose|k: int| 0 <= k < fam.seq().len() && fam.seq()[k] == e;
                                }
                            },
                        }
                    }
                    found
                },
                _ => None,
            }
        },
    };
    assert(current_from(resolve, d, category, opt_text(current)));
    decide_owner(declared, overrides, category, current)
}

/// The ids and declared types of a catalog, as plain values.
pub open spec fn catalog_decl(catalog: Seq<AppEntry>) -> Seq<(Seq<char>, Set<Seq<char>>)> {
    catalog.map_values(|a: AppEntry| (a.id@, a.declared@))
}

/// Each application's id with what it declares, as `category_owner` takes them.
pub fn declared_of(catalog: &[AppEntry]) -> (r: Vec<(&str, &TypeSet)>)
    ensures
        decl_view(r@) == catalog_decl(catalog@),
{
    let mut r: Vec<(&str, &TypeSet)> = Vec::new();
    let mut i: usize = 0;
    while i < catalog.len()
        invariant
            i <= catalog@.len(),
            decl_view(r@) == catalog_decl(catalog@).take(i as int),
        decreases catalog@.len() - i,
    {
        let app = &catalog[i];
        let ghost before = r@;
        r.push((app.id.as_str(), &app.declared));
        assert(decl_view(r@) =~= decl_view(before).push((app.id@, app.declared@)));
        assert(catalog_decl(catalog@).take(i + 1) =~= catalog_decl(catalog@).take(i as int).push(
            (app.id@, app.declared@),
        ));
        i = i + 1;
    }
    assert(catalog_decl(catalog@).take(catalog@.len() as int) =~= catalog_decl(catalog@));
    r
}

/// `p` is the first position of an application with this id.
pub open spec fn first_with_id(catalog: Seq<AppEntry>, id: Seq<char>, p: int) -> bool {
    &&& 0 <= p < catalog.len()
    &&& catalog[p].id@ == id
    &&& forall|q: int| 0 <= q < p ==> #[trigger] catalog[q].id@ != id
}

/// The first position of an application with this id, if there is one.
pub fn position_of(catalog: &[AppEntry], id: &str) -> (r: Option<usize>)
    ensures
        match r {
            Some(p) => first_with_id(catalog@, id@, p as int),
            None => forall|q: int| 0 <= q < catalog@.len() ==> #[trigger] catalog@[q].id@ != id@,
        },
{
    let mut i: usize = 0;
    while i < catalog.len()
        invariant
            i <= catalog@.len(),
            forall|q: int| 0 <= q < i ==> #[trigger] catalog@[q].id@ != id@,
        decreases catalog@.len() - i,
    {
        if same_text(catalog[i].id.as_str(), id) {
            return Some(i);
        }
        i = i + 1;
    }
    None
}

/// Whom a category reports: an application of the catalog, by position, or
/// the id of one the user assigned by hand that declares no types of its own.
pub enum DefaultOwner {
    Listed(usize),
    Unlisted(String),
}

/// The application a category reports, against the catalog, with `resolve`
/// saying which application currently opens a type.
pub fn category_default<F: Fn(&str) -> Option<String>>(
    catalog: &[AppEntry],
    overrides: &TypeSet,
    category: DefaultCategory,
    resolve: F,
) -> (r: Option<DefaultOwner>)
    requires
        forall|s: &str| #[trigger] call_requires(resolve, (s,)),
    ensures
        exists|c: Option<Seq<char>>|
            #![trigger owner_for(catalog_decl(catalog@), overrides@, category, c)]
            current_from(resolve, catalog_decl(catalog@), category, c) && match r {
                None => owner_for(catalog_decl(catalog@), overrides@, category, c) is None,
                Some(DefaultOwner::Listed(p)) => owner_for(
                    catalog_decl(catalog@),
                    overrides@,
                    category,
                    c,
                ) == Some(catalog@[p as int].id@) && first_with_id(
                    catalog@,
                    catalog@[p as int].id@,
                    p as int,
                ),
                Some(DefaultOwner::Unlisted(id)) => owner_for(
                    catalog_decl(catalog@),
                    overrides@,
                    category,
                    c,
                ) == Some(id@) && forall|q: int|
                    0 <= q < catalog@.len() ==> #[trigger] catalog@[q].id@ != id@,
            },
{
    let declared = declared_of(catalog);
    let owner = category_owner(declared.as_slice(), overrides, category, resolve);
    match owner {
        None => None,
        Some(id) => match position_of(catalog, id.as_str()) {
            Some(p) => Some(DefaultOwner::Listed(p)),
            None => Some(DefaultOwner::Unlisted(id)),
        },
    }
}

/// The positions of the applications that qualify for the category.
pub open spec fn qualifying(d: Seq<(Seq<char>, Set<Seq<char>>)>, category: DefaultCategory) -> Seq<
    int,
> {
    Seq::new(d.len(), |i: int| i).filter(|p: int| qualifies_spec(category, d[p].1))
}

/// What the chooser of a category offers: every application that qualifies,
/// in catalog order, then the current default if the user set it by hand to
/// one that does not.
pub open spec fn candidates_spec(
    catalog: Seq<AppEntry>,
    category: DefaultCategory,
    current: Option<Seq<char>>,
) -> Seq<int> {
    let q = qualifying(catalog_decl(catalog), category);
    match current {
        Some(id) => match first_position(catalog, id) {
            Some(p) => if q.contains(p) {
                q
            } else {
                q.push(p)
            },
            None => q,
        },
        None => q,
    }
}

/// The first position of an application with this id, if there is one.
pub open spec fn first_position(catalog: Seq<AppEntry>, id: Seq<char>) -> Option<int> {
    if exists|p: int| #[trigger] first_with_id(catalog, id, p) {
        Some(choose|p: int| #[trigger] first_with_id(catalog, id, p))
    } else {
        None
    }
}

/// Offer exactly what the row can then report back, so a choice never lands
/// somewhere the category cannot see it: the applications that qualify, and a
/// default the user set by hand even if its application would not qualify.
pub fn default_candidates(catalog: &[AppEntry], category: DefaultCategory, current: Option<&str>) -> (r:
    Vec<usize>)
    ensures
        r@.map_values(|p: usize| p as int) == candidates_spec(catalog@, category, opt_str(current)),
{
    let ghost d = catalog_decl(catalog@);
    let ghost idx = Seq::new(d.len(), |i: int| i);
    let ghost pred = |p: int| qualifies_spec(category, d[p].1);
    let mut r: Vec<usize> = Vec::new();
    let mut i: usize = 0;
    proof {
        lemma_filter_empty(idx, pred);
    }
    while i < catalog.len()
        invariant
            i <= catalog@.len(),
            d == catalog_decl(catalog@),
            idx == Seq::new(d.len(), |i: int| i),
            pred == (|p: int| qualifies_spec(category, d[p].1)),
            r@.map_values(|p: usize| p as int) == idx.take(i as int).filter(pred),
        decreases catalog@.len() - i,
    {
        proof {
            lemma_filter_step(idx, pred, i as int);
        }
        if category.qualifies(&catalog[i].declared) {
            let ghost before = r@;
            r.push(i);
            assert(r@.map_values(|p: usize| p as int) =~= before.map_values(|p: usize| p as int).push(
                i as int,
            ));
        }
        i = i + 1;
    }
    assert(idx.take(catalog@.len() as int) =~= idx);
    let ghost q = qualifying(d, category);
    assert(r@.map_values(|p: usize| p as int) == q);
    if let Some(id) = current {
        let pos = position_of(catalog, id);
        if pos.is_none() {
            assert(!exists|p: int| first_with_id(catalog@, id@, p)) by {
                if exists|p: int| first_with_id(catalog@, id@, p) {
                    let p = choose|p: int| first_with_id(catalog@, id@, p);
                    assert(catalog@[p].id@ == id@);
                }
            }
        }
        if let Some(p) = pos {
            let ghost chosen = choose|p: int| #[trigger] first_with_id(catalog@, id@, p);
            assert(first_with_id(catalog@, id@, p as int));
            assert(chosen == p as int) by {
                if chosen < p {
                    assert(catalog@[chosen].id@ != id@);
                } else if chosen > p {
                    assert(catalog@[p as int].id@ != id@);
                }
            }
            let mut listed = false;
            let mut k: usize = 0;
            while k < r.len()
                invariant
                    k <= r@.len(),
                    r@.map_values(|p: usize| p as int) == q,
                    listed == exists|j: int| 0 <= j < k && r@[j] == p,
                decreases r@.len() - k,
            {
                if r[k] == p {
                    listed = true;
                }
                k = k + 1;
            }
            if !listed {
                let ghost before = r@;
                r.push(p);
                assert(!q.contains(p as int)) by {
                    if q.contains(p as int) {
                        let j = choose|j: int| 0 <= j < q.len() && q[j] == p as int;
                        assert(before[j] == p);
                    }
                }
                assert(r@.map_values(|p: usize| p as int) =~= q.push(p as int));
                assert(first_with_id(catalog@, id@, p as int));
                assert(chosen == p as int);
                assert(d == catalog_decl(catalog@));
                assert(q == qualifying(catalog_decl(catalog@), category));
                assert(opt_str(current) == Some(id@));
                assert(r@.map_values(|p: usize| p as int) == candidates_spec(catalog@, category, opt_str(current)));
            } else {
                proof {
                    let j = choose|j: int| 0 <= j < r@.len() && r@[j] == p;
                    assert(q[j] == p as int);
                    assert(q.contains(p as int));
                    assert(first_with_id(catalog@, id@, p as int));
                    assert(chosen == p as int);
                }
                assert(r@.map_values(|p: usize| p as int) == candidates_spec(catalog@, category, opt_str(current)));
            }
        } else {
            assert(r@.map_values(|p: usize| p as int) == candidates_spec(catalog@, category, opt_str(current)));
        }
    } else {
        assert(r@.map_values(|p: usize| p as int) == candidates_spec(catalog@, category, opt_str(current)));
    }
    r
}

/// The view of an optional string slice.
pub open spec fn opt_str(o: Option<&str>) -> Option<Seq<char>> {
    match o {
        Some(s) => Some(s@),
        None => None,
    }
}

/// A category reports the application the user set by hand for its anchor,
/// whatever that application declares.
pub proof fn lemma_hand_set_default_is_reported(
    d: Seq<(Seq<char>, Set<Seq<char>>)>,
    overrides: Set<Seq<char>>,
    category: DefaultCategory,
    current: Seq<char>,
)
    requires
        overrides.contains(category.anchor@),
    ensures
        owner_for(d, overrides, category, Some(current)) == Some(current),
{
}

/// A category never reports an application other than the one that
/// currently opens its type, and reports nothing when nothing does.
pub proof fn lemma_owner_is_current(
    d: Seq<(Seq<char>, Set<Seq<char>>)>,
    overrides: Set<Seq<char>>,
    category: DefaultCategory,
    current: Option<Seq<char>>,
)
    ensures
        owner_for(d, overrides, category, current) is Some ==> owner_for(
            d,
            overrides,
            category,
            current,
        ) == current,
        current is None ==> owner_for(d, overrides, category, current) is None,
{
}

/// An application that opens a category's type only through what it
/// inherits, declaring nothing that qualifies, does not own the category
/// unless the user chose it by hand.
pub proof fn lemma_inherited_types_do_not_count(
    d: Seq<(Seq<char>, Set<Seq<char>>)>,
    overrides: Set<Seq<char>>,
    category: DefaultCategory,
    current: Seq<char>,
)
    requires
        !overrides.contains(category.anchor@),
        forall|i: int| 0 <= i < d.len() && d[i].0 == current ==> !qualifies_spec(category, d[i].1),
    ensures
        owner_for(d, overrides, category, Some(current)) is None,
{
}

/// An application that declares what a category needs owns it whenever it
/// opens the category's type.
pub proof fn lemma_qualifying_application_is_reported(
    d: Seq<(Seq<char>, Set<Seq<char>>)>,
    overrides: Set<Seq<char>>,
    category: DefaultCategory,
    i: int,
)
    requires
        0 <= i < d.len(),
        qualifies_spec(category, d[i].1),
    ensures
        owner_for(d, overrides, category, Some(d[i].0)) == Some(d[i].0),
{
}

/// What a category reports, it reports again when that application is the
/// one that opens the category's type.
pub proof fn lemma_reported_owner_is_stable(
    d: Seq<(Seq<char>, Set<Seq<char>>)>,
    overrides: Set<Seq<char>>,
    category: DefaultCategory,
    current: Option<Seq<char>>,
    owner: Seq<char>,
)
    requires
        owner_for(d, overrides, category, current) == Some(owner),
    ensures
        owner_for(d, overrides, category, Some(owner)) == Some(owner),
{
}

/// The narrow categories have no fallback: when nothing opens the anchor,
/// the web browser, mail and calendar rows report nothing.
pub proof fn lemma_narrow_categories_have_no_fallback<F: Fn(&str) -> Option<String>>(
    resolve: F,
    d: Seq<(Seq<char>, Set<Seq<char>>)>,
    overrides: Set<Seq<char>>,
    category: DefaultCategory,
    current: Option<Seq<char>>,
)
    requires
        !(category.kind is Media),
        forall|x: Seq<char>| !answered(resolve, category.anchor@, Some(x)),
        current_from(resolve, d, category, current),
    ensures
        owner_for(d, overrides, category, current) is None,
{
}

/// A media category falls back to its family: when nothing opens the anchor
/// but some declared type of the family is opened, and by one of the first
/// such types, that application is the current one.
pub proof fn lemma_media_categories_fall_back_to_the_family<F: Fn(&str) -> Option<String>>(
    resolve: F,
    d: Seq<(Seq<char>, Set<Seq<char>>)>,
    category: DefaultCategory,
    m: Seq<char>,
    owner: Seq<char>,
)
    requires
        category.kind is Media,
        answered(resolve, category.anchor@, None),
        family(d, category.kind).contains(m),
        answered(resolve, m, Some(owner)),
        forall|e: Seq<char>|
            family(d, category.kind).contains(e) && #[trigger] text_lt(e, m) ==> answered(
                resolve,
                e,
                None,
            ),
    ensures
        current_from(resolve, d, category, Some(owner)),
{
}

/// Every application the chooser of a category offers is one the category
/// then reports when it becomes the default for the category's type, provided
/// the current default offered was itself reported.
pub proof fn lemma_chooser_offers_what_the_row_reports(
    catalog: Seq<AppEntry>,
    overrides: Set<Seq<char>>,
    category: DefaultCategory,
    current: Option<Seq<char>>,
    j: int,
)
    requires
        current matches Some(c) ==> owner_for(catalog_decl(catalog), overrides, category, current)
            == Some(c),
        0 <= j < candidates_spec(catalog, category, current).len(),
    ensures
        0 <= candidates_spec(catalog, category, current)[j] < catalog.len(),
        ({
            let p = candidates_spec(catalog, category, current)[j];
            owner_for(catalog_decl(catalog), overrides, category, Some(catalog[p].id@)) == Some(
                catalog[p].id@,
            )
        }),
{
    let d = catalog_decl(catalog);
    let idx = Seq::new(d.len(), |i: int| i);
    let pred = |p: int| qualifies_spec(category, d[p].1);
    let q = qualifying(d, category);
    let cands = candidates_spec(catalog, category, current);
    let p = cands[j];
    if j < q.len() {
        assert(cands[j] == q[j]);
        broadcast use vstd::seq_lib::group_filter_ensures;
        assert(pred(q[j]));
        assert(q.contains(q[j]));
        assert(idx.filter(pred).contains(p));
        idx.lemma_filter_contains_rev(pred, p);
        let k = choose|k: int| 0 <= k < idx.len() && idx[k] == p;
        assert(0 <= p < catalog.len());
        assert(d[p] == (catalog[p].id@, catalog[p].declared@));
        assert(claims(d, category, catalog[p].id@));
    } else {
        let c = current->0;
        let fp = first_position(catalog, c)->0;
        assert(first_with_id(catalog, c, fp));
        assert(p == fp);
    }
}

/// The positions a filter keeps of `0, 1, ..., n - 1` among the first `i`
/// rise strictly and stay below `i`.
proof fn lemma_filtered_positions_rise(idx: Seq<int>, pred: spec_fn(int) -> bool, i: int)
    requires
        0 <= i <= idx.len(),
        forall|k: int| 0 <= k < idx.len() ==> #[trigger] idx[k] == k,
    ensures
        forall|a: int, b: int|
            0 <= a < b < idx.take(i).filter(pred).len() ==> #[trigger] idx.take(i).filter(pred)[a]
                < #[trigger] idx.take(i).filter(pred)[b],
        forall|a: int|
            0 <= a < idx.take(i).filter(pred).len() ==> 0 <= #[trigger] idx.take(i).filter(pred)[a]
                < i,
    decreases i,
{
    if i == 0 {
        lemma_filter_empty(idx, pred);
    } else {
        lemma_filtered_positions_rise(idx, pred, i - 1);
        lemma_filter_step(idx, pred, i - 1);
    }
}

/// The chooser of a category offers each position of the catalog at most
/// once, so where no two applications of the catalog share an id, it lists
/// no application twice.
pub proof fn lemma_chooser_lists_each_application_once(
    catalog: Seq<AppEntry>,
    category: DefaultCategory,
    current: Option<Seq<char>>,
)
    ensures
        candidates_spec(catalog, category, current).no_duplicates(),
        (forall|a: int, b: int| 0 <= a < b < catalog.len() ==> catalog[a].id@ != catalog[b].id@)
            ==> forall|a: int, b: int|
            0 <= a < b < candidates_spec(catalog, category, current).len() ==> catalog[candidates_spec(
                catalog,
                category,
                current,
            )[a]].id@ != catalog[candidates_spec(catalog, category, current)[b]].id@,
{
    let d = catalog_decl(catalog);
    let idx = Seq::new(d.len(), |i: int| i);
    let pred = |p: int| qualifies_spec(category, d[p].1);
    let q = qualifying(d, category);
    lemma_filtered_positions_rise(idx, pred, d.len() as int);
    assert(idx.take(d.len() as int) =~= idx);
    assert(q == idx.filter(pred));
    let cands = candidates_spec(catalog, category, current);
    assert(d.len() == catalog.len());
    assert forall|a: int| 0 <= a < cands.len() implies 0 <= #[trigger] cands[a] < catalog.len() by {
        if a >= q.len() {
            let c = current->0;
            let fp = first_position(catalog, c)->0;
            assert(first_with_id(catalog, c, fp));
        }
    }
    assert forall|a: int, b: int| 0 <= a < cands.len() && 0 <= b < cands.len() && a != b implies cands[a]
        != cands[b] by {
        if a < q.len() && b < q.len() {
            if a < b {
                assert(q[a] < q[b]);
            } else {
                assert(q[b] < q[a]);
            }
        } else if a < q.len() {
            assert(!q.contains(cands[b]));
            assert(q.contains(q[a]));
        } else if b < q.len() {
            assert(!q.contains(cands[a]));
            assert(q.contains(q[b]));
        }
    }
}

/// Each category's anchor is one of the types its kind stands for, so an
/// application that declares the anchor qualifies.
pub proof fn lemma_anchor_is_in_its_family(i: int)
    requires
        0 <= i < default_categories_spec().len(),
    ensures
        is_default_type_spec(default_categories_spec()[i].anchor@, default_categories_spec()[i].kind),
{
    reveal_strlit("x-scheme-handler/https");
    reveal_strlit("x-scheme-handler/mailto");
    reveal_strlit("text/calendar");
    reveal_strlit("image/png");
    reveal_strlit("image");
    reveal_strlit("audio/mpeg");
    reveal_strlit("audio");
    reveal_strlit("video/mp4");
    reveal_strlit("video");
    let c = default_categories_spec()[i];
    if i == 3 {
        assert("image/png"@.take(5) =~= "image"@);
    } else if i == 4 {
        assert("audio/mpeg"@.take(5) =~= "audio"@);
    } else if i == 5 {
        assert("video/mp4"@.take(5) =~= "video"@);
    }
}

/// A type belongs to at most one media family, for family names without a slash.
pub proof fn lemma_media_families_are_disjoint(mime: Seq<char>, a: Seq<char>, b: Seq<char>)
    requires
        in_media(mime, a),
        in_media(mime, b),
        !a.contains('/'),
        !b.contains('/'),
    ensures
        a == b,
{
    if a.len() < b.len() {
        assert(mime[a.len() as int] == b[a.len() as int]);
        assert(b.contains('/'));
    } else if b.len() < a.len() {
        assert(mime[b.len() as int] == a[b.len() as int]);
        assert(a.contains('/'));
    } else {
        assert(a =~= mime.take(a.len() as int));
        assert(b =~= mime.take(b.len() as int));
    }
}

/// The Web Browser, Mail and Calendar categories need their anchor itself:
/// an application qualifies for one exactly when it declares the category's
/// anchor, whatever else of the family it declares (an editor that declares
/// `text/html` is no web browser).
pub proof fn lemma_narrow_categories_need_their_anchor(category: DefaultCategory, declared: Set<Seq<char>>)
    requires
        !(category.kind is Media),
    ensures
        qualifies_spec(category, declared) == declared.contains(category.anchor@),
{
}

/// The types each kind of category stands for: the Web Browser the two
/// HTML types and http and https links, Mail messages and mailto links,
/// Calendar iCalendar files and webcal links, and a media family every
/// type `media/anything` of its top-level media type.
pub proof fn lemma_category_families(mime: Seq<char>, media: &'static str)
    ensures
        is_default_type_spec(mime, DefaultKind::Browser) <==> (mime == "text/html"@ || mime
            == "application/xhtml+xml"@ || mime == "x-scheme-handler/http"@ || mime
            == "x-scheme-handler/https"@),
        is_default_type_spec(mime, DefaultKind::Mail) <==> (mime == "message/rfc822"@ || mime
            == "x-scheme-handler/mailto"@),
        is_default_type_spec(mime, DefaultKind::Calendar) <==> (mime == "text/calendar"@ || mime
            == "x-scheme-handler/webcal"@ || mime == "x-scheme-handler/webcals"@),
        is_default_type_spec(mime, DefaultKind::Media(media)) <==> exists|rest: Seq<char>|
            mime == #[trigger] (media@ + "/"@ + rest),
{
    reveal_strlit("/");
    let m = media@;
    if in_media(mime, m) {
        let rest = mime.skip(m.len() as int + 1);
        assert(mime =~= m + "/"@ + rest) by {
            assert forall|i: int| 0 <= i < m.len() implies mime[i] == m[i] by {
                assert(mime.take(m.len() as int)[i] == m[i]);
            }
        }
    }
    if exists|rest: Seq<char>| mime == #[trigger] (m + "/"@ + rest) {
        let rest = choose|rest: Seq<char>| mime == #[trigger] (m + "/"@ + rest);
        assert(starts_with(mime, m)) by {
            assert(mime.take(m.len() as int) =~= m);
        }
        assert(mime[m.len() as int] == '/');
    }
}

} // verus!
