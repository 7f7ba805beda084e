//! The sidebar: the fixed rows, then one row per application or per media
//! group, each with the number of types it lists.
use crate::catalog::AppEntry;
use crate::entry::MimeEntry;
use crate::i18n::{can_translate, text_of, translated, Message};
use crate::text::same_text;
use crate::typeset::{texts, TypeSet};
use crate::window::{title_message, title_msg, Selection};
use vstd::prelude::*;

verus! {

/// One row of the sidebar.
pub struct SidebarRow {
    pub title: String,
    /// How many types the row lists; the Default Apps row, which would count
    /// something else, carries none.
    pub count: Option<usize>,
    pub selection: Selection,
    /// For a media group, its types in list order: the row shows the generic
    /// icon of the first of them that has one.
    pub icon_mimes: Vec<String>,
}

/// How many of the first `n` entries the user modified.
pub open spec fn modified_count(entries: Seq<MimeEntry>, n: int) -> nat
    decreases n,
{
    if n <= 0 {
        0
    } else {
        modified_count(entries, n - 1) + if entries[n - 1].modified_view() {
            1nat
        } else {
            0nat
        }
    }
}

/// How many of the first `n` entries belong to the media group `g`.
pub open spec fn group_count(entries: Seq<MimeEntry>, g: Seq<char>, n: int) -> nat
    decreases n,
{
    if n <= 0 {
        0
    } else {
        group_count(entries, g, n - 1) + if entries[n - 1].type_group_view() == g {
            1nat
        } else {
            0nat
        }
    }
}

/// The types of the first `n` entries that belong to the media group `g`, in order.
pub open spec fn group_mimes(entries: Seq<MimeEntry>, g: Seq<char>, n: int) -> Seq<Seq<char>>
    decreases n,
{
    if n <= 0 {
        Seq::empty()
    } else if entries[n - 1].type_group_view() == g {
        group_mimes(entries, g, n - 1).push(entries[n - 1].mime_view())
    } else {
        group_mimes(entries, g, n - 1)
    }
}

/// The media groups the entries belong to.
pub open spec fn groups_of(entries: Seq<MimeEntry>) -> Set<Seq<char>> {
    Set::new(
        |g: Seq<char>|
            exists|i: int| 0 <= i < entries.len() && #[trigger] entries[i].type_group_view() == g,
    )
}

fn count_modified(entries: &[MimeEntry]) -> (r: usize)
    ensures
        r == modified_count(entries@, entries@.len() as int),
{
    let mut r: usize = 0;
    let mut i: usize = 0;
    while i < entries.len()
        invariant
            i <= entries@.len(),
            r == modified_count(entries@, i as int),
            r <= i,
        decreases entries@.len() - i,
    {
        if entries[i].modified() {
            r = r + 1;
        }
        i = i + 1;
    }
    r
}

fn count_group(entries: &[MimeEntry], g: &str) -> (r: (usize, Vec<String>))
    ensures
        r.0 == group_count(entries@, g@, entries@.len() as int),
        texts(r.1@) == group_mimes(entries@, g@, entries@.len() as int),
{
    let mut n: usize = 0;
    let mut mimes: Vec<String> = Vec::new();
    let mut i: usize = 0;
    while i < entries.len()
        invariant
            i <= entries@.len(),
            n == group_count(entries@, g@, i as int),
            n <= i,
            texts(mimes@) == group_mimes(entries@, g@, i as int),
        decreases entries@.len() - i,
    {
        if same_text(entries[i].type_group().as_str(), g) {
            n = n + 1;
            let ghost before = mimes@;
            mimes.push(entries[i].mime());
            assert(texts(mimes@) =~= texts(before).push(entries@[i as int].mime_view()));
        }
        i = i + 1;
    }
    (n, mimes)
}

fn group_names(entries: &[MimeEntry]) -> (r: TypeSet)
    ensures
        r@ == groups_of(entries@),
{
    let mut r = TypeSet::new();
    let mut i: usize = 0;
    while i < entries.len()
        invariant
            i <= entries@.len(),
            r@ == groups_of(entries@.take(i as int)),
        decreases entries@.len() - i,
    {
        r.insert(entries[i].type_group());
        assert(r@ =~= groups_of(entries@.take(i + 1))) by {
            assert forall|g: Seq<char>| groups_of(entries@.take(i + 1)).contains(g) implies r@.contains(g) by {
                let k = choose|k: int| 0 <= k < i + 1 && #[trigger] entries@.take(i + 1)[k].type_group_view() == g;
                if k < i {
                    assert(entries@.take(i as int)[k].type_group_view() == g);
                }
            }
            assert forall|g: Seq<char>| r@.contains(g) implies groups_of(entries@.take(i + 1)).contains(g) by {
                if groups_of(entries@.take(i as int)).contains(g) {
                    let k = choose|k: int| 0 <= k < i && #[trigger] entries@.take(i as int)[k].type_group_view() == g;
                    assert(entries@.take(i + 1)[k].type_group_view() == g);
                } else {
                    assert(entries@.take(i + 1)[i as int].type_group_view() == g);
                }
            }
        }
        i = i + 1;
    }
    assert(entries@.take(entries@.len() as int) =~= entries@);
    r
}

/// The rows of the sidebar: Default Apps, All File Types with every entry,
/// Modified with the entries the user changed; then every application with
/// the number of types it opens, or every media group, in order, with the
/// number of entries in it.
pub fn fill_sidebar<T: Fn(&Message) -> String>(
    entries: &[MimeEntry],
    catalog: &[AppEntry],
    by_app: bool,
    tr: &T,
) -> (rows: Vec<SidebarRow>)
    requires
        can_translate(*tr),
    ensures
        rows@.len() >= 3,
        rows@[0].selection is Defaults && rows@[0].count is None,
        translated(*tr, title_msg(Selection::Defaults), rows@[0].title@),
        translated(*tr, title_msg(Selection::All), rows@[1].title@),
        translated(*tr, title_msg(Selection::Modified), rows@[2].title@),
        rows@[1].selection is All && rows@[1].count == Some(entries@.len() as usize),
        rows@[2].selection is Modified && rows@[2].count == Some(
            modified_count(entries@, entries@.len() as int) as usize,
        ),
        by_app ==> rows@.len() == 3 + catalog@.len() && forall|j: int|
            0 <= j < catalog@.len() ==> {
                let row = #[trigger] rows@[3 + j];
                &&& row.title@ == catalog@[j].name@
                &&& row.count == Some(catalog@[j].types@.len() as usize)
                &&& row.selection matches Selection::App(id) && id@ == catalog@[j].id@
                &&& row.icon_mimes@.len() == 0
            },
        !by_app ==> exists|groups: Seq<Seq<char>>|
            #![trigger groups.to_set()]
            groups.to_set() == groups_of(entries@) && crate::typeset::strictly_sorted(groups)
                && rows@.len() == 3 + groups.len() && forall|k: int|
                0 <= k < groups.len() ==> {
                    let row = #[trigger] rows@[3 + k];
                    &&& row.title@ == groups[k]
                    &&& row.count == Some(group_count(entries@, groups[k], entries@.len() as int) as usize)
                    &&& row.selection matches Selection::Media(g) && g@ == groups[k]
                    &&& texts(row.icon_mimes@) == group_mimes(entries@, groups[k], entries@.len() as int)
                },
{
    let mut rows: Vec<SidebarRow> = Vec::new();
    let defaults = Selection::Defaults;
    let all = Selection::All;
    let modified = Selection::Modified;
    let defaults_title = text_of(tr, &title_message(&defaults).unwrap());
    let all_title = text_of(tr, &title_message(&all).unwrap());
    let modified_title = text_of(tr, &title_message(&modified).unwrap());
    rows.push(SidebarRow { title: defaults_title, count: None, selection: defaults, icon_mimes: Vec::new() });
    rows.push(SidebarRow { title: all_title, count: Some(entries.len()), selection: all, icon_mimes: Vec::new() });
    rows.push(SidebarRow { title: modified_title, count: Some(count_modified(entries)), selection: modified, icon_mimes: Vec::new() });
    if by_app {
        let mut j: usize = 0;
        while j < catalog.len()
            invariant
                j <= catalog@.len(),
                rows@.len() == 3 + j,
                rows@[0].selection is Defaults && rows@[0].count is None,
                translated(*tr, title_msg(Selection::Defaults), rows@[0].title@),
                translated(*tr, title_msg(Selection::All), rows@[1].title@),
                translated(*tr, title_msg(Selection::Modified), rows@[2].title@),
                rows@[1].selection is All && rows@[1].count == Some(entries@.len() as usize),
                rows@[2].selection is Modified && rows@[2].count == Some(
                    modified_count(entries@, entries@.len() as int) as usize,
                ),
                forall|q: int|
                    0 <= q < j ==> {
                        let row = #[trigger] rows@[3 + q];
                        &&& row.title@ == catalog@[q].name@
                        &&& row.count == Some(catalog@[q].types@.len() as usize)
                        &&& row.selection matches Selection::App(id) && id@ == catalog@[q].id@
                        &&& row.icon_mimes@.len() == 0
                    },
            decreases catalog@.len() - j,
        {
            let app = &catalog[j];
            rows.push(SidebarRow {
                title: app.name.clone(),
                count: Some(app.types.len()),
                selection: Selection::App(app.id.clone()),
                icon_mimes: Vec::new(),
            });
            j = j + 1;
        }
    } else {
        let groups = group_names(entries);
        proof {
            use_type_invariant(&groups);
            groups.lemma_order();
        }
        let mut k: usize = 0;
        while k < groups.len()
            invariant
                k <= groups.seq().len(),
                rows@.len() == 3 + k,
                rows@[0].selection is Defaults && rows@[0].count is None,
                translated(*tr, title_msg(Selection::Defaults), rows@[0].title@),
                translated(*tr, title_msg(Selection::All), rows@[1].title@),
                translated(*tr, title_msg(Selection::Modified), rows@[2].title@),
                rows@[1].selection is All && rows@[1].count == Some(entries@.len() as usize),
                rows@[2].selection is Modified && rows@[2].count == Some(
                    modified_count(entries@, entries@.len() as int) as usize,
                ),
                groups@ == groups_of(entries@),
                forall|q: int|
                    0 <= q < k ==> {
                        let row = #[trigger] rows@[3 + q];
                        &&& row.title@ == groups.seq()[q]
                        &&& row.count == Some(group_count(entries@, groups.seq()[q], entries@.len() as int) as usize)
                        &&& row.selection matches Selection::Media(g) && g@ == groups.seq()[q]
                        &&& texts(row.icon_mimes@) == group_mimes(entries@, groups.seq()[q], entries@.len() as int)
                    },
            decreases groups.seq().len() - k,
        {
            let g = groups.get(k);
            assert(groups@.contains(g@));
            let (n, mimes) = count_group(entries, g.as_str());
            rows.push(SidebarRow { title: g.clone(), count: Some(n), selection: Selection::Media(g.clone()), icon_mimes: mimes });
            k = k + 1;
        }
        assert(groups.seq().to_set() == groups_of(entries@));
    }
    rows
}

/// The sum, over the first `m` of `groups`, of how many of the first `n`
/// entries each holds.
pub open spec fn counts_sum(entries: Seq<MimeEntry>, groups: Seq<Seq<char>>, n: int, m: int) -> nat
    decreases m,
{
    if m <= 0 {
        0
    } else {
        counts_sum(entries, groups, n, m - 1) + group_count(entries, groups[m - 1], n)
    }
}

/// How many of the first `m` of `groups` are `g`.
spec fn hits(groups: Seq<Seq<char>>, g: Seq<char>, m: int) -> nat
    decreases m,
{
    if m <= 0 {
        0
    } else {
        hits(groups, g, m - 1) + if groups[m - 1] == g {
            1nat
        } else {
            0nat
        }
    }
}

proof fn lemma_counts_sum_empty(entries: Seq<MimeEntry>, groups: Seq<Seq<char>>, m: int)
    ensures
        counts_sum(entries, groups, 0, m) == 0,
    decreases m,
{
    if m > 0 {
        lemma_counts_sum_empty(entries, groups, m - 1);
    }
}

proof fn lemma_counts_sum_step(entries: Seq<MimeEntry>, groups: Seq<Seq<char>>, n: int, m: int)
    requires
        0 <= n,
    ensures
        counts_sum(entries, groups, n + 1, m) == counts_sum(entries, groups, n, m) + hits(
            groups,
            entries[n].type_group_view(),
            m,
        ),
    decreases m,
{
    if m > 0 {
        lemma_counts_sum_step(entries, groups, n, m - 1);
    }
}

proof fn lemma_hits_once(groups: Seq<Seq<char>>, g: Seq<char>, m: int)
    requires
        groups.no_duplicates(),
        0 <= m <= groups.len(),
    ensures
        hits(groups, g, m) == if exists|k: int| 0 <= k < m && groups[k] == g {
            1nat
        } else {
            0nat
        },
    decreases m,
{
    if m > 0 {
        lemma_hits_once(groups, g, m - 1);
        if groups[m - 1] == g {
            assert forall|k: int| 0 <= k < m - 1 implies groups[k] != g by {
                assert(groups[k] != groups[m - 1]);
            }
        } else {
            if exists|k: int| 0 <= k < m && groups[k] == g {
                let k = choose|k: int| 0 <= k < m && groups[k] == g;
                assert(k < m - 1);
            }
        }
    }
}

proof fn lemma_counts_prefix(entries: Seq<MimeEntry>, groups: Seq<Seq<char>>, n: int)
    requires
        0 <= n <= entries.len(),
        groups.no_duplicates(),
        groups.to_set() == groups_of(entries),
    ensures
        counts_sum(entries, groups, n, groups.len() as int) == n,
    decreases n,
{
    if n == 0 {
        lemma_counts_sum_empty(entries, groups, groups.len() as int);
    } else {
        lemma_counts_prefix(entries, groups, n - 1);
        let g = entries[n - 1].type_group_view();
        assert(groups_of(entries).contains(g));
        assert(groups.to_set().contains(g));
        assert(groups.contains(g));
        lemma_hits_once(groups, g, groups.len() as int);
        lemma_counts_sum_step(entries, groups, n - 1, groups.len() as int);
    }
}

/// The media groups of the sidebar together hold every entry once: where
/// `groups` lists each media group of the entries once, the numbers of
/// entries in the groups add up to the number of entries.
pub proof fn lemma_media_counts_add_up(entries: Seq<MimeEntry>, groups: Seq<Seq<char>>)
    requires
        groups.no_duplicates(),
        groups.to_set() == groups_of(entries),
    ensures
        counts_sum(entries, groups, entries.len() as int, groups.len() as int) == entries.len(),
{
    lemma_counts_prefix(entries, groups, entries.len() as int);
}

} // verus!
