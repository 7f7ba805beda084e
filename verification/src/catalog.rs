//! Installed applications and the types they open, the user's own
//! associations, and bulk assignment.
use crate::text::{sub_chars, same_chars, chars_of, split_chars, split_on, string_of, trim_chars, trimmed, views_of, lemma_pair_lt_asymmetric, lemma_pair_lt_total, lemma_pair_lt_transitive, pair_less, pair_lt, same_text};
use crate::entry::{group_name, media_group};
use crate::typeset::{ref_texts, set_of, texts, TypeSet};
use crate::text::{decimal, decimal_text, replace_text};
use crate::i18n::{can_translate, counted, fixed, msg_view, plural_count, text_of, translated, Message};
use crate::messages::{fill, fill_opt, opt_view};
use vstd::string::StringExecFns;
use vstd::prelude::*;

verus! {

/// An installed application together with every content type it declares.
pub struct AppEntry {
    /// The desktop file id.
    pub id: String,
    /// The name shown to the user.
    pub name: String,
    /// Exactly what the desktop file claims.
    pub declared: TypeSet,
    /// `declared` plus everything the MIME database derives from it.
    pub types: TypeSet,
    /// The position, among the records read, of the first one for this id;
    /// the application is launched and assigned through that one.
    pub source: usize,
}

/// One application as the system lists it: its id if it has one, its name,
/// and the content types its desktop file declares.
pub struct AppRecord {
    pub id: Option<String>,
    pub name: String,
    pub types: Vec<String>,
}

/// The record lists the application `id` and declares at least one type.
pub open spec fn counts_for(r: AppRecord, id: Seq<char>) -> bool {
    &&& r.id matches Some(x) && x@ == id
    &&& r.types@.len() > 0
}

/// Some record lists the application `id` with at least one type.
pub open spec fn listed(recs: Seq<AppRecord>, id: Seq<char>) -> bool {
    exists|i: int| 0 <= i < recs.len() && #[trigger] counts_for(recs[i], id)
}

/// Position `i` holds the first record that lists `id` with a type.
pub open spec fn is_first_record(recs: Seq<AppRecord>, id: Seq<char>, i: int) -> bool {
    &&& 0 <= i < recs.len()
    &&& counts_for(recs[i], id)
    &&& forall|j: int| 0 <= j < i ==> !#[trigger] counts_for(recs[j], id)
}

/// Every type that any record of the application `id` declares.
pub open spec fn merged_types(recs: Seq<AppRecord>, id: Seq<char>) -> Set<Seq<char>>
    decreases recs.len(),
{
    if recs.len() == 0 {
        Set::empty()
    } else if counts_for(recs.last(), id) {
        merged_types(recs.drop_last(), id).union(texts(recs.last().types@).to_set())
    } else {
        merged_types(recs.drop_last(), id)
    }
}

/// `s` in lower case, by the Unicode `Lowercase` mapping `str::to_lowercase` applies.
pub uninterp spec fn lowercase(s: Seq<char>) -> Seq<char>;

/// `str::to_lowercase`: the string with every character mapped to lower case.
#[verifier::external_body]
fn to_lowercase(s: &str) -> (r: String)
    ensures
        r@ == lowercase(s@),
{
    s.to_lowercase()
}

/// Applications are listed by name without regard to case, and by id where
/// two names are the same.
pub open spec fn app_before(a: AppEntry, b: AppEntry) -> bool {
    pair_lt(lowercase(a.name@), a.id@, lowercase(b.name@), b.id@)
}

/// The entry is what the records say of its application: the name of its
/// first record, every type any of its records declares, nothing inherited yet.
pub open spec fn entry_from(recs: Seq<AppRecord>, e: AppEntry) -> bool {
    &&& is_first_record(recs, e.id@, e.source as int)
    &&& e.name@ == recs[e.source as int].name@
    &&& e.declared@ == merged_types(recs, e.id@)
    &&& e.types@ == e.declared@
}

proof fn lemma_merged_step(recs: Seq<AppRecord>, k: int, id: Seq<char>)
    requires
        0 <= k < recs.len(),
    ensures
        merged_types(recs.take(k + 1), id) == if counts_for(recs[k], id) {
            merged_types(recs.take(k), id).union(texts(recs[k].types@).to_set())
        } else {
            merged_types(recs.take(k), id)
        },
{
    assert(recs.take(k + 1).drop_last() =~= recs.take(k));
    assert(recs.take(k + 1).last() == recs[k]);
}

proof fn lemma_unlisted_merged_empty(recs: Seq<AppRecord>, id: Seq<char>)
    requires
        !listed(recs, id),
    ensures
        merged_types(recs, id) == Set::<Seq<char>>::empty(),
    decreases recs.len(),
{
    if recs.len() > 0 {
        assert(!counts_for(recs[recs.len() - 1], id));
        assert forall|i: int| 0 <= i < recs.drop_last().len() implies !#[trigger] counts_for(
            recs.drop_last()[i],
            id,
        ) by {
            assert(recs.drop_last()[i] == recs[i]);
        }
        lemma_unlisted_merged_empty(recs.drop_last(), id);
    }
}

/// `apps` is the catalog the records describe: one entry per listed id, each
/// what the records say of its application, in order of name.
pub open spec fn apps_from(records: Seq<AppRecord>, apps: Seq<AppEntry>) -> bool {
    &&& forall|j: int| 0 <= j < apps.len() ==> entry_from(records, #[trigger] apps[j])
    &&& forall|id: Seq<char>|
        listed(records, id) ==> exists|j: int| 0 <= j < apps.len() && #[trigger] apps[j].id@ == id
    &&& forall|j: int, k: int| 0 <= j < k < apps.len() ==> app_before(apps[j], apps[k])
}

/// The state of the merge after the first `k` records.
spec fn merge_state(recs: Seq<AppRecord>, acc: Seq<AppEntry>, keys: Seq<String>) -> bool {
    &&& keys.len() == acc.len()
    &&& forall|j: int| 0 <= j < acc.len() ==> #[trigger] keys[j]@ == lowercase(acc[j].name@)
    &&& forall|j: int| 0 <= j < acc.len() ==> entry_from(recs, #[trigger] acc[j])
    &&& forall|id: Seq<char>|
        listed(recs, id) ==> exists|j: int| 0 <= j < acc.len() && #[trigger] acc[j].id@ == id
    &&& forall|j: int, k: int| 0 <= j < k < acc.len() ==> app_before(acc[j], acc[k])
}

/// Applications that declare at least one content type, one entry per id,
/// ordered by name. Records without an id or without a type are left out;
/// records that share an id are merged into one entry.
pub fn installed_apps(records: &[AppRecord]) -> (apps: Vec<AppEntry>)
    ensures
        apps_from(records@, apps@),
{
    let mut acc: Vec<AppEntry> = Vec::new();
    let mut keys: Vec<String> = Vec::new();
    let mut k: usize = 0;
    assert(merge_state(records@.take(0), acc@, keys@));
    while k < records.len()
        invariant
            k <= records@.len(),
            merge_state(records@.take(k as int), acc@, keys@),
        decreases records@.len() - k,
    {
        let ghost before = records@.take(k as int);
        let ghost after = records@.take(k + 1);
        assert(after.drop_last() =~= before);
        assert forall|i: int| 0 <= i < k implies #[trigger] after[i] == before[i] by {}
        assert(after[k as int] == records@[k as int]);
        proof {
            assert forall|id: Seq<char>| #![auto] merged_types(after, id) == if counts_for(records@[k as int], id) {
                merged_types(before, id).union(texts(records@[k as int].types@).to_set())
            } else {
                merged_types(before, id)
            } by {
                lemma_merged_step(records@, k as int, id);
            }
        }
        let rec = &records[k];
        match &rec.id {
            None => {
                assert(merge_state(after, acc@, keys@)) by {
                    assert forall|id: Seq<char>| listed(after, id) implies listed(before, id) by {
                        let i = choose|i: int| 0 <= i < after.len() && #[trigger] counts_for(after[i], id);
                        assert(i != k);
                        assert(counts_for(before[i], id));
                    }
                    assert forall|j: int| 0 <= j < acc@.len() implies entry_from(after, #[trigger] acc@[j]) by {
                        assert(entry_from(before, acc@[j]));
                    }
                }
            },
            Some(id) => {
                if rec.types.len() == 0 {
                    assert(merge_state(after, acc@, keys@)) by {
                        assert forall|x: Seq<char>| listed(after, x) implies listed(before, x) by {
                            let i = choose|i: int| 0 <= i < after.len() && #[trigger] counts_for(after[i], x);
                            assert(i != k);
                            assert(counts_for(before[i], x));
                        }
                        assert forall|j: int| 0 <= j < acc@.len() implies entry_from(after, #[trigger] acc@[j]) by {
                            assert(entry_from(before, acc@[j]));
                        }
                    }
                } else {
                    assert(counts_for(records@[k as int], id@));
                    let types = set_of(rec.types.as_slice());
                    let mut found: Option<usize> = None;
                    let mut j: usize = 0;
                    while j < acc.len() && found.is_none()
                        invariant
                            j <= acc@.len(),
                            found matches Some(p) ==> p < acc@.len() && acc@[p as int].id@ == id@,
                            found is None ==> forall|q: int| 0 <= q < j ==> #[trigger] acc@[q].id@ != id@,
                        decreases acc@.len() - j,
                    {
                        if same_text(acc[j].id.as_str(), id.as_str()) {
                            found = Some(j);
                        }
                        j = j + 1;
                    }
                    match found {
                        Some(p) => {
                            let ghost old_acc = acc@;
                            let mut e = acc.remove(p);
                            assert(e == old_acc[p as int]);
                            assert(entry_from(before, e));
                            e.declared.extend(&types);
                            e.types.extend(&types);
                            acc.insert(p, e);
                            assert(acc@ =~= old_acc.update(p as int, e));
                            assert(merge_state(after, acc@, keys@)) by {
                                assert(is_first_record(after, id@, e.source as int));
                                assert(entry_from(after, e));
                                assert forall|q: int| 0 <= q < acc@.len() implies entry_from(after, #[trigger] acc@[q]) by {
                                    if q != p {
                                        assert(entry_from(before, old_acc[q]));
                                        if old_acc[q].id@ == id@ {
                                            let sq = old_acc[q].source as int;
                                            let sp = old_acc[p as int].source as int;
                                            assert(entry_from(before, old_acc[p as int]));
                                            assert(sq == sp) by {
                                                if sq < sp {
                                                    assert(counts_for(before[sq], id@));
                                                } else if sp < sq {
                                                    assert(counts_for(before[sp], id@));
                                                }
                                            }
                                            assert(old_acc[q].name@ == old_acc[p as int].name@);
                                            if q < p {
                                                assert(app_before(old_acc[q], old_acc[p as int]));
                                                lemma_pair_lt_asymmetric(lowercase(old_acc[q].name@), old_acc[q].id@, lowercase(old_acc[p as int].name@), old_acc[p as int].id@);
                                            } else {
                                                assert(app_before(old_acc[p as int], old_acc[q]));
                                                lemma_pair_lt_asymmetric(lowercase(old_acc[p as int].name@), old_acc[p as int].id@, lowercase(old_acc[q].name@), old_acc[q].id@);
                                            }
                                            assert(old_acc[q].source == old_acc[p as int].source);
                                            assert(false);
                                        }
                                        assert(is_first_record(after, old_acc[q].id@, old_acc[q].source as int));
                                    }
                                }
                                assert forall|x: Seq<char>| listed(after, x) implies exists|q: int|
                                    0 <= q < acc@.len() && #[trigger] acc@[q].id@ == x by {
                                    if x == id@ {
                                        assert(acc@[p as int].id@ == x);
                                    } else {
                                        let i = choose|i: int| 0 <= i < after.len() && #[trigger] counts_for(after[i], x);
                                        assert(i != k);
                                        assert(counts_for(before[i], x));
                                        assert(listed(before, x));
                                        let q = choose|q: int| 0 <= q < old_acc.len() && #[trigger] old_acc[q].id@ == x;
                                        assert(acc@[q].id@ == x);
                                    }
                                }
                                assert forall|a: int, b: int| 0 <= a < b < acc@.len() implies app_before(acc@[a], acc@[b]) by {
                                    assert(app_before(old_acc[a], old_acc[b]));
                                }
                            }
                        },
                        None => {
                            assert(!listed(before, id@));
                            proof {
                                lemma_unlisted_merged_empty(before, id@);
                            }
                            let key = to_lowercase(rec.name.as_str());
                            let key_chars = chars_of(key.as_str());
                            let id_chars = chars_of(id.as_str());
                            let mut pos: usize = 0;
                            let mut stop = false;
                            while pos < acc.len() && !stop
                                invariant
                                    pos <= acc@.len(),
                                    keys@.len() == acc@.len(),
                                    forall|j: int| 0 <= j < acc@.len() ==> #[trigger] keys@[j]@ == lowercase(acc@[j].name@),
                                    key_chars@ == lowercase(rec.name@),
                                    id_chars@ == id@,
                                    forall|q: int| 0 <= q < acc@.len() ==> #[trigger] acc@[q].id@ != id@,
                                    !stop ==> forall|q: int| 0 <= q < pos ==> pair_lt(lowercase(#[trigger] acc@[q].name@), acc@[q].id@, key_chars@, id_chars@),
                                    stop ==> pos > 0 && forall|q: int| 0 <= q < pos - 1 ==> pair_lt(lowercase(#[trigger] acc@[q].name@), acc@[q].id@, key_chars@, id_chars@),
                                    stop ==> pair_lt(key_chars@, id_chars@, lowercase(acc@[pos - 1].name@), acc@[pos - 1].id@),
                                decreases acc@.len() - pos,
                            {
                                let kc = chars_of(keys[pos].as_str());
                                let ic = chars_of(acc[pos].id.as_str());
                                if pair_less(key_chars.as_slice(), id_chars.as_slice(), kc.as_slice(), ic.as_slice()) {
                                    stop = true;
                                } else {
                                    proof {
                                        lemma_pair_lt_total(key_chars@, id_chars@, kc@, ic@);
                                    }
                                }
                                pos = pos + 1;
                            }
                            let at = if stop { pos - 1 } else { pos };
                            assert forall|q: int| at <= q < acc@.len() implies pair_lt(key_chars@, id_chars@, lowercase(#[trigger] acc@[q].name@), acc@[q].id@) by {
                                if q > at {
                                    assert(app_before(acc@[at as int], acc@[q]));
                                    lemma_pair_lt_transitive(key_chars@, id_chars@, lowercase(acc@[at as int].name@), acc@[at as int].id@, lowercase(acc@[q].name@), acc@[q].id@);
                                }
                            }
                            let declared = types.clone();
                            let e = AppEntry { id: id.clone(), name: rec.name.clone(), declared, types, source: k };
                            assert(e.id@ == id@ && e.name@ == rec.name@);
                            assert(entry_from(after, e)) by {
                                assert forall|j: int| 0 <= j < k implies !#[trigger] counts_for(after[j], id@) by {
                                    assert(after[j] == before[j]);
                                }
                                assert(merged_types(after, id@) =~= texts(rec.types@).to_set());
                            }
                            let ghost old_acc = acc@;
                            let ghost old_keys = keys@;
                            acc.insert(at, e);
                            keys.insert(at, key);
                            assert(merge_state(after, acc@, keys@)) by {
                                assert forall|j: int| 0 <= j < acc@.len() implies #[trigger] keys@[j]@ == lowercase(acc@[j].name@) by {
                                    if j < at {
                                        assert(keys@[j] == old_keys[j] && acc@[j] == old_acc[j]);
                                    } else if j > at {
                                        assert(keys@[j] == old_keys[j - 1] && acc@[j] == old_acc[j - 1]);
                                    }
                                }
                                assert forall|j: int| 0 <= j < acc@.len() implies entry_from(after, #[trigger] acc@[j]) by {
                                    if j != at {
                                        let o = if j < at { old_acc[j] } else { old_acc[j - 1] };
                                        assert(acc@[j] == o);
                                        assert(entry_from(before, o));
                                        assert(o.id@ != id@);
                                        assert(is_first_record(after, o.id@, o.source as int));
                                    }
                                }
                                assert forall|x: Seq<char>| listed(after, x) implies exists|q: int|
                                    0 <= q < acc@.len() && #[trigger] acc@[q].id@ == x by {
                                    if x == id@ {
                                        assert(acc@[at as int].id@ == x);
                                    } else {
                                        let i = choose|i: int| 0 <= i < after.len() && #[trigger] counts_for(after[i], x);
                                        assert(i != k);
                                        assert(counts_for(before[i], x));
                                        assert(listed(before, x));
                                        let q = choose|q: int| 0 <= q < old_acc.len() && #[trigger] old_acc[q].id@ == x;
                                        if q < at {
                                            assert(acc@[q].id@ == x);
                                        } else {
                                            assert(acc@[q + 1].id@ == x);
                                        }
                                    }
                                }
                                assert forall|a: int, b: int| 0 <= a < b < acc@.len() implies app_before(acc@[a], acc@[b]) by {
                                    if b < at {
                                        assert(app_before(old_acc[a], old_acc[b]));
                                    } else if b == at {
                                        assert(pair_lt(lowercase(old_acc[a].name@), old_acc[a].id@, key_chars@, id_chars@));
                                    } else if a < at {
                                        assert(acc@[b] == old_acc[b - 1]);
                                        assert(app_before(old_acc[a], old_acc[b - 1]));
                                    } else if a == at {
                                        assert(acc@[b] == old_acc[b - 1]);
                                    } else {
                                        assert(app_before(old_acc[a - 1], old_acc[b - 1]));
                                    }
                                }
                            }
                        },
                    }
                }
            },
        }
        k = k + 1;
    }
    assert(records@.take(records@.len() as int) =~= records@);
    acc
}

/// Every type some application in `apps` can open.
pub open spec fn all_types(apps: Seq<AppEntry>) -> Set<Seq<char>> {
    Set::new(
        |m: Seq<char>| exists|j: int| 0 <= j < apps.len() && #[trigger] apps[j].types@.contains(m),
    )
}

/// Every type some application in `apps` can open. Types nothing handles
/// are left out: there would be nothing to choose for them.
pub fn installed_mime_types(apps: &[AppEntry]) -> (r: TypeSet)
    ensures
        r@ == all_types(apps@),
{
    let mut r = TypeSet::new();
    let mut j: usize = 0;
    while j < apps.len()
        invariant
            j <= apps@.len(),
            r@ == all_types(apps@.take(j as int)),
        decreases apps@.len() - j,
    {
        r.extend(&apps[j].types);
        assert(r@ =~= all_types(apps@.take(j + 1))) by {
            assert forall|m: Seq<char>| all_types(apps@.take(j + 1)).contains(m) implies r@.contains(m) by {
                let q = choose|q: int| 0 <= q < j + 1 && #[trigger] apps@.take(j + 1)[q].types@.contains(m);
                if q < j {
                    assert(apps@.take(j as int)[q].types@.contains(m));
                }
            }
            assert forall|m: Seq<char>| r@.contains(m) implies all_types(apps@.take(j + 1)).contains(m) by {
                if all_types(apps@.take(j as int)).contains(m) {
                    let q = choose|q: int| 0 <= q < j && #[trigger] apps@.take(j as int)[q].types@.contains(m);
                    assert(apps@.take(j + 1)[q].types@.contains(m));
                } else {
                    assert(apps@.take(j + 1)[j as int].types@.contains(m));
                }
            }
        }
        j = j + 1;
    }
    assert(apps@.take(apps@.len() as int) =~= apps@);
    r
}

/// The non-blank lines of `text`, without the white space around them.
pub open spec fn listed_lines(text: Seq<char>) -> Set<Seq<char>> {
    Set::new(
        |x: Seq<char>|
            x.len() > 0 && exists|i: int|
                0 <= i < split_on(text, '\n').len() && trimmed(#[trigger] split_on(text, '\n')[i])
                    == x,
    )
}

/// Adds the non-blank lines of `text`, trimmed, to `set`.
pub fn add_listed_lines(set: &mut TypeSet, text: &str)
    ensures
        final(set)@ == old(set)@.union(listed_lines(text@)),
{
    let cs = chars_of(text);
    let lines = split_chars(cs.as_slice(), '\n');
    let ghost pieces = split_on(text@, '\n');
    let mut i: usize = 0;
    while i < lines.len()
        invariant
            i <= lines@.len(),
            views_of(lines@) == pieces,
            pieces == split_on(text@, '\n'),
            forall|x: Seq<char>|
                #![trigger set@.contains(x)]
                set@.contains(x) <==> (old(set)@.contains(x) || (x.len() > 0 && exists|k: int|
                    0 <= k < i && trimmed(#[trigger] pieces[k]) == x)),
        decreases lines@.len() - i,
    {
        let t = trim_chars(lines[i].as_slice());
        assert(t@ == trimmed(pieces[i as int]));
        if t.len() > 0 {
            set.insert(string_of(t.as_slice()));
        }
        i = i + 1;
    }
    assert(final(set)@ =~= old(set)@.union(listed_lines(text@)));
}

/// The types the MIME database files list, and those `apps` can open.
pub open spec fn known_of(files: Seq<String>, apps: Seq<AppEntry>) -> Set<Seq<char>> {
    Set::new(
        |x: Seq<char>|
            all_types(apps).contains(x) || exists|f: int|
                0 <= f < files.len() && #[trigger] listed_lines(files[f]@).contains(x),
    )
}

/// Every content type the shared MIME database knows about, given the text
/// of each `mime/types` file found, plus anything an application declares
/// that the database has not heard of.
pub fn known_mime_types(files: &[String], apps: &[AppEntry]) -> (r: TypeSet)
    ensures
        r@ == known_of(files@, apps@),
{
    let mut r = TypeSet::new();
    let mut f: usize = 0;
    while f < files.len()
        invariant
            f <= files@.len(),
            forall|x: Seq<char>|
                #![trigger r@.contains(x)]
                r@.contains(x) <==> exists|g: int|
                    0 <= g < f && #[trigger] listed_lines(files@[g]@).contains(x),
        decreases files@.len() - f,
    {
        add_listed_lines(&mut r, files[f].as_str());
        f = f + 1;
    }
    let apps_types = installed_mime_types(apps);
    r.extend(&apps_types);
    assert(r@ =~= known_of(files@, apps@));
    r
}

/// `is_a`, asked whether `kind` is a subtype of `parent`, has answered `b`.
pub open spec fn answered_is_a<F: Fn(&str, &str) -> bool>(
    is_a: F,
    kind: Seq<char>,
    parent: Seq<char>,
    b: bool,
) -> bool {
    exists|s: &str, t: &str| #[trigger] call_ensures(is_a, (s, t), b) && s@ == kind && t@ == parent
}

/// `children` holds exactly the known types other than `parent` that `is_a`
/// called subtypes of it.
pub open spec fn children_of<F: Fn(&str, &str) -> bool>(
    is_a: F,
    known: Set<Seq<char>>,
    parent: Seq<char>,
    children: Set<Seq<char>>,
) -> bool {
    &&& forall|k: Seq<char>|
        #[trigger] children.contains(k) ==> known.contains(k) && k != parent && answered_is_a(
            is_a,
            k,
            parent,
            true,
        )
    &&& forall|k: Seq<char>|
        known.contains(k) && k != parent && !#[trigger] children.contains(k) ==> answered_is_a(
            is_a,
            k,
            parent,
            false,
        )
}

/// The known types that `is_a` calls subtypes of `parent`.
fn subtypes<F: Fn(&str, &str) -> bool>(known: &TypeSet, parent: &str, is_a: &F) -> (c: TypeSet)
    requires
        forall|s: &str, t: &str| #[trigger] call_requires(*is_a, (s, t)),
    ensures
        children_of(*is_a, known@, parent@, c@),
{
    let mut c = TypeSet::new();
    let mut m: usize = 0;
    while m < known.len()
        invariant
            m <= known.seq().len(),
            forall|s: &str, t: &str| #[trigger] call_requires(*is_a, (s, t)),
            forall|k: Seq<char>|
                #[trigger] c@.contains(k) ==> known@.contains(k) && k != parent@ && answered_is_a(
                    *is_a,
                    k,
                    parent@,
                    true,
                ),
            forall|r: int|
                0 <= r < m && #[trigger] known.seq()[r] != parent@ && !c@.contains(known.seq()[r])
                    ==> answered_is_a(*is_a, known.seq()[r], parent@, false),
        decreases known.seq().len() - m,
    {
        let kind = known.get(m);
        if !same_text(kind.as_str(), parent) {
            let yes = is_a(kind.as_str(), parent);
            assert(answered_is_a(*is_a, kind@, parent@, yes));
            if yes {
                assert(known@.contains(kind@));
                c.insert(kind.clone());
            }
        }
        m = m + 1;
    }
    assert forall|k: Seq<char>|
        known@.contains(k) && k != parent@ && !#[trigger] c@.contains(k) implies answered_is_a(
        *is_a,
        k,
        parent@,
        false,
    ) by {
        let r = choose|r: int| 0 <= r < known.seq().len() && known.seq()[r] == k;
    }
    c
}

/// `b` is `a` with the subtypes of its types folded in: the same
/// application, every type it had, and besides them exactly the known types
/// that `is_a` called subtypes of one of them.
pub open spec fn expanded_from<F: Fn(&str, &str) -> bool>(
    is_a: F,
    known: Set<Seq<char>>,
    a: AppEntry,
    b: AppEntry,
) -> bool {
    &&& b.id == a.id
    &&& b.name == a.name
    &&& b.declared@ == a.declared@
    &&& b.source == a.source
    &&& a.types@.subset_of(b.types@)
    &&& forall|k: Seq<char>|
        #[trigger] b.types@.contains(k) && !a.types@.contains(k) ==> exists|p: Seq<char>|
            a.types@.contains(p) && known.contains(k) && k != p && #[trigger] answered_is_a(
                is_a,
                k,
                p,
                true,
            )
    &&& forall|p: Seq<char>, k: Seq<char>|
        a.types@.contains(p) && known.contains(k) && k != p && !#[trigger] b.types@.contains(k)
            ==> #[trigger] answered_is_a(is_a, k, p, false)
}

/// The entry with `types` in place of its types.
fn with_types(e: &AppEntry, types: TypeSet) -> (r: AppEntry)
    ensures
        r.id == e.id,
        r.name == e.name,
        r.declared@ == e.declared@,
        r.source == e.source,
        r.types@ == types@,
{
    AppEntry { id: e.id.clone(), name: e.name.clone(), declared: e.declared.clone(), types, source: e.source }
}

/// A desktop file lists the types an application handles directly, but the MIME
/// database makes many types a subtype of one of them: an editor that claims
/// `text/plain` also opens `text/rust` and `text/x-c++src`, and GIO resolves that
/// on its own. Fold those in so an application shows what it can really open.
/// `is_a(kind, parent)` answers whether the MIME database makes `kind` a
/// subtype of `parent`; it is asked about every known type for every type
/// some application has.
pub fn expand_supported_types<F: Fn(&str, &str) -> bool>(
    apps: &mut Vec<AppEntry>,
    known: &TypeSet,
    is_a: F,
)
    requires
        forall|s: &str, t: &str| #[trigger] call_requires(is_a, (s, t)),
    ensures
        final(apps)@.len() == old(apps)@.len(),
        forall|j: int|
            0 <= j < old(apps)@.len() ==> expanded_from(
                is_a,
                known@,
                old(apps)@[j],
                #[trigger] final(apps)@[j],
            ),
{
    let parents = installed_mime_types(apps.as_slice());
    let mut table: Vec<TypeSet> = Vec::new();
    let mut i: usize = 0;
    while i < parents.len()
        invariant
            i <= parents.seq().len(),
            table@.len() == i,
            forall|s: &str, t: &str| #[trigger] call_requires(is_a, (s, t)),
            forall|q: int| 0 <= q < i ==> children_of(is_a, known@, parents.seq()[q], #[trigger] table@[q]@),
        decreases parents.seq().len() - i,
    {
        let c = subtypes(known, parents.get(i).as_str(), &is_a);
        table.push(c);
        i = i + 1;
    }
    let mut old: Vec<AppEntry> = Vec::new();
    std::mem::swap(&mut old, apps);
    assert(parents@ == all_types(old@));
    let mut j: usize = 0;
    while j < old.len()
        invariant
            j <= old@.len(),
            apps@.len() == j,
            parents@ == all_types(old@),
            table@.len() == parents.seq().len(),
            forall|q: int| 0 <= q < table@.len() ==> children_of(is_a, known@, parents.seq()[q], #[trigger] table@[q]@),
            forall|a: int| 0 <= a < j ==> expanded_from(is_a, known@, old@[a], #[trigger] apps@[a]),
        decreases old@.len() - j,
    {
        let e = &old[j];
        let mut expanded = e.types.clone();
        let mut t: usize = 0;
        while t < e.types.len()
            invariant
                t <= e.types.seq().len(),
                parents@ == all_types(old@),
                j < old@.len(),
                e == old@[j as int],
                table@.len() == parents.seq().len(),
                forall|q: int| 0 <= q < table@.len() ==> children_of(is_a, known@, parents.seq()[q], #[trigger] table@[q]@),
                e.types@.subset_of(expanded@),
                forall|k: Seq<char>|
                    #[trigger] expanded@.contains(k) && !e.types@.contains(k) ==> exists|p: Seq<char>|
                        e.types@.contains(p) && known@.contains(k) && k != p && #[trigger] answered_is_a(
                            is_a,
                            k,
                            p,
                            true,
                        ),
                forall|r: int, k: Seq<char>|
                    0 <= r < t && known@.contains(k) && k != e.types.seq()[r] && !#[trigger] expanded@.contains(k)
                        ==> #[trigger] answered_is_a(is_a, k, e.types.seq()[r], false),
            decreases e.types.seq().len() - t,
        {
            let parent = e.types.get(t);
            assert(e.types@.contains(parent@));
            assert(all_types(old@).contains(parent@));
            match parents.position(parent.as_str()) {
                Some(idx) => {
                    let ghost before = expanded@;
                    expanded.extend(&table[idx]);
                    assert(children_of(is_a, known@, parents.seq()[idx as int], table@[idx as int]@));
                    assert forall|k: Seq<char>|
                        #[trigger] expanded@.contains(k) && !e.types@.contains(k) implies exists|p: Seq<char>|
                            e.types@.contains(p) && known@.contains(k) && k != p && #[trigger] answered_is_a(
                                is_a,
                                k,
                                p,
                                true,
                            ) by {
                        if !before.contains(k) {
                            assert(table@[idx as int]@.contains(k));
                        }
                    }
                },
                None => {
                    assert(false);
                },
            }
            t = t + 1;
        }
        let ghost x = old@[j as int];
        assert forall|p: Seq<char>, k: Seq<char>|
            x.types@.contains(p) && known@.contains(k) && k != p && !#[trigger] expanded@.contains(k)
                implies #[trigger] answered_is_a(is_a, k, p, false) by {
            let r = choose|r: int| 0 <= r < e.types.seq().len() && e.types.seq()[r] == p;
        }
        let updated = with_types(e, expanded);
        apps.push(updated);
        j = j + 1;
    }
}

/// The name of the section a `[name]` line opens, if the line is one.
pub open spec fn section_of(line: Seq<char>) -> Option<Seq<char>> {
    if line.len() >= 2 && line[0] == '[' && line.last() == ']' {
        Some(line.subrange(1, line.len() - 1))
    } else {
        None
    }
}

/// Position `k` holds the first `=` of `line`.
pub open spec fn first_equals(line: Seq<char>, k: int) -> bool {
    &&& 0 <= k < line.len()
    &&& line[k] == '='
    &&& forall|j: int| 0 <= j < k ==> line[j] != '='
}

/// The key of a `key=value` line, trimmed, if the line has an `=`.
pub open spec fn key_of(line: Seq<char>) -> Option<Seq<char>> {
    if exists|k: int| #[trigger] first_equals(line, k) {
        Some(trimmed(line.take(choose|k: int| #[trigger] first_equals(line, k))))
    } else {
        None
    }
}

/// Reading the lines in order: whether the last section opened is
/// `[Default Applications]`, and the keys found in such sections so far.
pub open spec fn overrides_state(lines: Seq<Seq<char>>) -> (bool, Set<Seq<char>>)
    decreases lines.len(),
{
    if lines.len() == 0 {
        (false, Set::empty())
    } else {
        let (in_defaults, found) = overrides_state(lines.drop_last());
        let line = trimmed(lines.last());
        match section_of(line) {
            Some(name) => (name == "Default Applications"@, found),
            None => match key_of(line) {
                Some(key) => if in_defaults {
                    (in_defaults, found.insert(key))
                } else {
                    (in_defaults, found)
                },
                None => (in_defaults, found),
            },
        }
    }
}

/// The types the user assigned themselves: the keys of the
/// `[Default Applications]` sections of a `mimeapps.list`.
pub open spec fn overrides_spec(text: Seq<char>) -> Set<Seq<char>> {
    overrides_state(split_on(text, '\n')).1
}

/// Line `i` lies in a `[Default Applications]` section: the last section
/// opened before it is that one.
pub open spec fn under_defaults(lines: Seq<Seq<char>>, i: int) -> bool {
    exists|h: int|
        0 <= h < i && #[trigger] section_of(trimmed(lines[h])) == Some("Default Applications"@)
            && forall|j: int| h < j < i ==> section_of(trimmed(#[trigger] lines[j])) is None
}

/// Line `i` is a `key=value` line, not a section header, with key `key`.
pub open spec fn key_line(lines: Seq<Seq<char>>, i: int, key: Seq<char>) -> bool {
    &&& section_of(trimmed(lines[i])) is None
    &&& key_of(trimmed(lines[i])) == Some(key)
}

proof fn lemma_under_defaults_prefix(long: Seq<Seq<char>>, short: Seq<Seq<char>>, i: int)
    requires
        short.len() <= long.len(),
        0 <= i <= short.len(),
        forall|j: int| 0 <= j < short.len() ==> short[j] == long[j],
    ensures
        under_defaults(long, i) == under_defaults(short, i),
{
    if under_defaults(long, i) {
        let h = choose|h: int|
            0 <= h < i && #[trigger] section_of(trimmed(long[h])) == Some("Default Applications"@)
                && forall|j: int| h < j < i ==> section_of(trimmed(#[trigger] long[j])) is None;
        assert(short[h] == long[h]);
        assert forall|j: int| h < j < i implies section_of(trimmed(#[trigger] short[j])) is None by {
            assert(short[j] == long[j]);
        }
        assert(section_of(trimmed(short[h])) == Some("Default Applications"@));
    }
    if under_defaults(short, i) {
        let h = choose|h: int|
            0 <= h < i && #[trigger] section_of(trimmed(short[h])) == Some("Default Applications"@)
                && forall|j: int| h < j < i ==> section_of(trimmed(#[trigger] short[j])) is None;
        assert(short[h] == long[h]);
        assert forall|j: int| h < j < i implies section_of(trimmed(#[trigger] long[j])) is None by {
            assert(short[j] == long[j]);
        }
        assert(section_of(trimmed(long[h])) == Some("Default Applications"@));
    }
}

proof fn lemma_overrides_state_sections(lines: Seq<Seq<char>>)
    ensures
        overrides_state(lines).0 == under_defaults(lines, lines.len() as int),
        forall|k: Seq<char>|
            overrides_state(lines).1.contains(k) <==> exists|i: int|
                0 <= i < lines.len() && #[trigger] key_line(lines, i, k) && under_defaults(lines, i),
    decreases lines.len(),
{
    let n = lines.len() as int;
    if n == 0 {
        return;
    }
    let prev = lines.drop_last();
    lemma_overrides_state_sections(prev);
    assert forall|j: int| 0 <= j < prev.len() implies prev[j] == lines[j] by {}
    lemma_under_defaults_prefix(lines, prev, n - 1);
    assert forall|i: int| 0 <= i < n - 1 implies under_defaults(lines, i) == under_defaults(prev, i)
        && (forall|k: Seq<char>| key_line(lines, i, k) == key_line(prev, i, k)) by {
        lemma_under_defaults_prefix(lines, prev, i);
    }
    let line = trimmed(lines[n - 1]);
    assert(lines.last() == lines[n - 1]);
    // Whether the lines end inside a `[Default Applications]` section.
    match section_of(line) {
        Some(name) => {
            if name == "Default Applications"@ {
                assert(under_defaults(lines, n)) by {
                    assert(section_of(trimmed(lines[n - 1])) == Some("Default Applications"@));
                }
            } else if under_defaults(lines, n) {
                let h = choose|h: int|
                    0 <= h < n && #[trigger] section_of(trimmed(lines[h])) == Some("Default Applications"@)
                        && forall|j: int| h < j < n ==> section_of(trimmed(#[trigger] lines[j])) is None;
                if h < n - 1 {
                    assert(section_of(trimmed(lines[n - 1])) is None);
                }
            }
        },
        None => {
            if under_defaults(lines, n) {
                let h = choose|h: int|
                    0 <= h < n && #[trigger] section_of(trimmed(lines[h])) == Some("Default Applications"@)
                        && forall|j: int| h < j < n ==> section_of(trimmed(#[trigger] lines[j])) is None;
                assert(h != n - 1);
                assert(under_defaults(lines, n - 1));
            }
            if under_defaults(lines, n - 1) {
                let h = choose|h: int|
                    0 <= h < n - 1 && #[trigger] section_of(trimmed(lines[h])) == Some("Default Applications"@)
                        && forall|j: int| h < j < n - 1 ==> section_of(trimmed(#[trigger] lines[j])) is None;
                assert forall|j: int| h < j < n implies section_of(trimmed(#[trigger] lines[j])) is None by {
                    if j < n - 1 {
                    } else {
                        assert(j == n - 1);
                    }
                }
                assert(under_defaults(lines, n));
            }
        },
    }
    // Which keys have been found.
    assert forall|k: Seq<char>|
        overrides_state(lines).1.contains(k) <==> exists|i: int|
            0 <= i < lines.len() && #[trigger] key_line(lines, i, k) && under_defaults(lines, i) by {
        if overrides_state(lines).1.contains(k) {
            if overrides_state(prev).1.contains(k) {
                let i = choose|i: int| 0 <= i < prev.len() && #[trigger] key_line(prev, i, k) && under_defaults(prev, i);
                assert(key_line(lines, i, k) && under_defaults(lines, i));
            } else {
                assert(key_line(lines, n - 1, k));
                assert(under_defaults(prev, n - 1));
                assert(under_defaults(lines, n - 1));
            }
        }
        if exists|i: int| 0 <= i < lines.len() && #[trigger] key_line(lines, i, k) && under_defaults(lines, i) {
            let i = choose|i: int| 0 <= i < lines.len() && #[trigger] key_line(lines, i, k) && under_defaults(lines, i);
            if i < n - 1 {
                assert(key_line(prev, i, k) && under_defaults(prev, i));
                assert(overrides_state(prev).1.contains(k));
            } else {
                assert(under_defaults(prev, n - 1));
            }
        }
    }
}

/// The user's own associations are exactly the keys of the lines that lie
/// in a `[Default Applications]` section: a key counts when the last section
/// opened before its line is `[Default Applications]`, and a key under any
/// other section, such as `[Added Associations]`, does not.
pub proof fn lemma_overrides_are_the_default_applications_keys(text: Seq<char>, key: Seq<char>)
    ensures
        overrides_spec(text).contains(key) <==> exists|i: int|
            0 <= i < split_on(text, '\n').len() && #[trigger] key_line(split_on(text, '\n'), i, key)
                && under_defaults(split_on(text, '\n'), i),
{
    lemma_overrides_state_sections(split_on(text, '\n'));
}

/// The name of the section `line` opens, if it is a `[name]` line.
fn section_name(line: &[char]) -> (r: Option<Vec<char>>)
    ensures
        match r {
            Some(v) => section_of(line@) == Some(v@),
            None => section_of(line@) is None,
        },
{
    let n = line.len();
    if n >= 2 && line[0] == '[' && line[n - 1] == ']' {
        Some(sub_chars(line, 1, n - 1))
    } else {
        None
    }
}

/// The trimmed key of a `key=value` line.
fn key_name(line: &[char]) -> (r: Option<Vec<char>>)
    ensures
        match r {
            Some(v) => key_of(line@) == Some(v@),
            None => key_of(line@) is None,
        },
{
    let mut k: usize = 0;
    while k < line.len()
        invariant
            k <= line@.len(),
            forall|j: int| 0 <= j < k ==> line@[j] != '=',
        decreases line@.len() - k,
    {
        if line[k] == '=' {
            assert(first_equals(line@, k as int));
            let ghost c = choose|c: int| #[trigger] first_equals(line@, c);
            assert(c == k) by {
                if c < k {
                    assert(line@[c] != '=');
                } else if c > k {
                    assert(line@[k as int] != '=');
                }
            }
            let head = sub_chars(line, 0, k);
            assert(head@ =~= line@.take(k as int));
            return Some(trim_chars(head.as_slice()));
        }
        k = k + 1;
    }
    assert(!exists|c: int| #[trigger] first_equals(line@, c));
    None
}

/// Types the user has assigned themselves, read from the text of the
/// `mimeapps.list` GIO writes. GIO has no API for "is this mine or the
/// system's", so the file is parsed here.
pub fn user_overrides(text: &str) -> (r: TypeSet)
    ensures
        r@ == overrides_spec(text@),
{
    let cs = chars_of(text);
    let lines = split_chars(cs.as_slice(), '\n');
    let ghost pieces = split_on(text@, '\n');
    let defaults = chars_of("Default Applications");
    let mut overrides = TypeSet::new();
    let mut in_defaults = false;
    let mut i: usize = 0;
    assert(pieces.take(0) =~= Seq::<Seq<char>>::empty());
    while i < lines.len()
        invariant
            i <= lines@.len(),
            views_of(lines@) == pieces,
            pieces == split_on(text@, '\n'),
            defaults@ == "Default Applications"@,
            overrides_state(pieces.take(i as int)) == (in_defaults, overrides@),
        decreases lines@.len() - i,
    {
        let line = trim_chars(lines[i].as_slice());
        assert(pieces.take(i + 1).drop_last() =~= pieces.take(i as int));
        assert(pieces.take(i + 1).last() == pieces[i as int]);
        assert(line@ == trimmed(pieces[i as int]));
        match section_name(line.as_slice()) {
            Some(name) => {
                in_defaults = same_chars(name.as_slice(), defaults.as_slice());
            },
            None => {
                if in_defaults {
                    if let Some(key) = key_name(line.as_slice()) {
                        overrides.insert(string_of(key.as_slice()));
                    }
                }
            },
        }
        i = i + 1;
    }
    assert(pieces.take(lines@.len() as int) =~= pieces);
    overrides
}

/// The types among the first `n` of `types` whose section name is `group`,
/// in order, `labels` giving each type's section name.
pub open spec fn kept_in_group(
    types: Seq<Seq<char>>,
    labels: Seq<Seq<char>>,
    group: Seq<char>,
    n: int,
) -> Seq<Seq<char>>
    decreases n,
{
    if n <= 0 {
        Seq::empty()
    } else {
        let prev = kept_in_group(types, labels, group, n - 1);
        if labels[n - 1] == group {
            prev.push(types[n - 1])
        } else {
            prev
        }
    }
}

/// The types of `types` whose section name, given by `labels`, is `group`;
/// all of them when there is no group.
pub fn select_in_group<'a>(types: &'a TypeSet, labels: &[String], group: Option<&str>) -> (r: Vec<
    &'a String,
>)
    requires
        labels@.len() == types.seq().len(),
    ensures
        match group {
            None => ref_texts(r@) == types.seq(),
            Some(g) => ref_texts(r@) == kept_in_group(
                types.seq(),
                texts(labels@),
                g@,
                types.seq().len() as int,
            ),
        },
{
    let mut r: Vec<&String> = Vec::new();
    let mut i: usize = 0;
    while i < types.len()
        invariant
            i <= types.seq().len(),
            labels@.len() == types.seq().len(),
            match group {
                None => ref_texts(r@) == types.seq().take(i as int),
                Some(g) => ref_texts(r@) == kept_in_group(
                    types.seq(),
                    texts(labels@),
                    g@,
                    i as int,
                ),
            },
        decreases types.seq().len() - i,
    {
        let m = types.get(i);
        let keep = match group {
            None => true,
            Some(g) => same_text(labels[i].as_str(), g),
        };
        let ghost before = r@;
        if keep {
            r.push(m);
            assert(ref_texts(r@) =~= ref_texts(before).push(m@));
        }
        assert(types.seq().take(i + 1) =~= types.seq().take(i as int).push(types.seq()[i as int]));
        i = i + 1;
    }
    assert(types.seq().take(types.seq().len() as int) =~= types.seq());
    r
}

proof fn lemma_kept_in_group_members(
    types: Seq<Seq<char>>,
    labels: Seq<Seq<char>>,
    group: Seq<char>,
    n: int,
)
    requires
        0 <= n <= types.len(),
        labels.len() == types.len(),
    ensures
        forall|t: Seq<char>|
            #[trigger] kept_in_group(types, labels, group, n).contains(t) <==> exists|i: int|
                0 <= i < n && types[i] == t && labels[i] == group,
    decreases n,
{
    if n > 0 {
        lemma_kept_in_group_members(types, labels, group, n - 1);
        let prev = kept_in_group(types, labels, group, n - 1);
        assert forall|t: Seq<char>|
            #[trigger] kept_in_group(types, labels, group, n).contains(t) <==> exists|i: int|
                0 <= i < n && types[i] == t && labels[i] == group by {
            if kept_in_group(types, labels, group, n).contains(t) {
                if labels[n - 1] == group {
                    let cur = prev.push(types[n - 1]);
                    let k = choose|k: int| 0 <= k < cur.len() && #[trigger] cur[k] == t;
                    if k < prev.len() {
                        assert(prev[k] == t);
                        assert(prev.contains(t));
                    } else {
                        assert(types[n - 1] == t);
                    }
                } else {
                    assert(prev.contains(t));
                }
            }
            if exists|i: int| 0 <= i < n && types[i] == t && labels[i] == group {
                let i = choose|i: int| 0 <= i < n && types[i] == t && labels[i] == group;
                if i < n - 1 {
                    assert(prev.contains(t));
                    if labels[n - 1] == group {
                        let k = choose|k: int| 0 <= k < prev.len() && #[trigger] prev[k] == t;
                        assert(prev.push(types[n - 1])[k] == t);
                    }
                } else {
                    assert(prev.push(types[n - 1])[prev.len() as int] == t);
                }
            }
        }
    }
}

/// The media groups split an application's types: each type is in the
/// group its section name names, and a type in one group is in no other.
/// Stated over one naming of the sections, as `select_in_group` takes it.
pub proof fn lemma_groups_split_the_types(types: Seq<Seq<char>>, labels: Seq<Seq<char>>)
    requires
        labels.len() == types.len(),
        types.no_duplicates(),
    ensures
        forall|i: int|
            0 <= i < types.len() ==> #[trigger] kept_in_group(
                types,
                labels,
                labels[i],
                types.len() as int,
            ).contains(types[i]),
        forall|g: Seq<char>, h: Seq<char>, t: Seq<char>|
            g != h && #[trigger] kept_in_group(types, labels, g, types.len() as int).contains(t)
                ==> !#[trigger] kept_in_group(types, labels, h, types.len() as int).contains(t),
{
    let n = types.len() as int;
    assert forall|i: int| 0 <= i < types.len() implies #[trigger] kept_in_group(
        types,
        labels,
        labels[i],
        n,
    ).contains(types[i]) by {
        lemma_kept_in_group_members(types, labels, labels[i], n);
    }
    assert forall|g: Seq<char>, h: Seq<char>, t: Seq<char>|
        g != h && #[trigger] kept_in_group(types, labels, g, n).contains(t) implies !#[trigger] kept_in_group(
        types,
        labels,
        h,
        n,
    ).contains(t) by {
        lemma_kept_in_group_members(types, labels, g, n);
        lemma_kept_in_group_members(types, labels, h, n);
        let i = choose|i: int| 0 <= i < n && types[i] == t && labels[i] == g;
        if kept_in_group(types, labels, h, n).contains(t) {
            let j = choose|j: int| 0 <= j < n && types[j] == t && labels[j] == h;
            assert(i != j);
        }
    }
}

/// The types a bulk action covers: everything an application supports, or only
/// the part of it in one media group, each type's section named as
/// `media_group` names it with the translator `tr`.
pub fn scoped_types<'a, T: Fn(&Message) -> String>(app: &'a AppEntry, group: Option<&str>, tr: &T) -> (r: Vec<&'a String>)
    requires
        can_translate(*tr),
    ensures
        group is None ==> ref_texts(r@) == app.types.seq(),
        group matches Some(g) ==> exists|labels: Seq<Seq<char>>|
            #![trigger kept_in_group(app.types.seq(), labels, g@, app.types.seq().len() as int)]
            labels.len() == app.types.seq().len() && (forall|i: int|
                0 <= i < labels.len() ==> group_name(*tr, app.types.seq()[i], #[trigger] labels[i]))
                && ref_texts(r@) == kept_in_group(
                app.types.seq(),
                labels,
                g@,
                app.types.seq().len() as int,
            ),
{
    let mut labels: Vec<String> = Vec::new();
    let mut i: usize = 0;
    while i < app.types.len()
        invariant
            i <= app.types.seq().len(),
            labels@.len() == i,
            can_translate(*tr),
            forall|k: int| 0 <= k < i ==> group_name(*tr, app.types.seq()[k], #[trigger] labels@[k]@),
        decreases app.types.seq().len() - i,
    {
        labels.push(media_group(app.types.get(i).as_str(), tr));
        i = i + 1;
    }
    let r = select_in_group(&app.types, labels.as_slice(), group);
    proof {
        if group is Some {
            let l = texts(labels@);
            assert(forall|k: int| 0 <= k < l.len() ==> #[trigger] l[k] == labels@[k]@);
        }
    }
    r
}

/// What became of one type in a bulk assignment.
pub enum Outcome {
    /// The application already opened it; nothing was written.
    AlreadyDefault,
    /// The application was made its default.
    Assigned,
    /// Making the application its default was refused, for this reason.
    Failed(String),
}

/// Make one application the default for the given types, skipping the ones it
/// already opens. Returns how many were set and how many were refused.
pub struct Assignment {
    pub set: usize,
    pub failed: usize,
    /// The first refusal, kept so the report can name a cause rather than a count.
    pub error: Option<String>,
}

/// How many types were set and refused, and the first refusal's reason.
pub open spec fn tally(outcomes: Seq<Outcome>) -> (nat, nat, Option<Seq<char>>)
    decreases outcomes.len(),
{
    if outcomes.len() == 0 {
        (0, 0, None)
    } else {
        let (set, failed, error) = tally(outcomes.drop_last());
        match outcomes.last() {
            Outcome::AlreadyDefault => (set, failed, error),
            Outcome::Assigned => (set + 1, failed, error),
            Outcome::Failed(e) => (set, failed + 1, if error is None {
                Some(e@)
            } else {
                error
            }),
        }
    }
}

/// The view of an assignment, as `tally` gives it.
pub open spec fn assignment_view(a: Assignment) -> (nat, nat, Option<Seq<char>>) {
    (
        a.set as nat,
        a.failed as nat,
        match a.error {
            Some(e) => Some(e@),
            None => None,
        },
    )
}

/// `f`, asked about `mime`, has answered `b`.
pub open spec fn answered_bool<F: Fn(&str) -> bool>(f: F, mime: Seq<char>, b: bool) -> bool {
    exists|s: &str| #[trigger] call_ensures(f, (s,), b) && s@ == mime
}

/// `f`, asked to make the application the default for `mime`, has answered:
/// success for `None`, a refusal for `Some(reason)`.
pub open spec fn answered_set<G: Fn(&str) -> Result<(), String>>(
    f: G,
    mime: Seq<char>,
    refusal: Option<Seq<char>>,
) -> bool {
    exists|s: &str, out: Result<(), String>|
        #[trigger] call_ensures(f, (s,), out) && s@ == mime && match out {
            Ok(_) => refusal is None,
            Err(e) => refusal == Some(e@),
        }
}

/// `o` is what the calls for `mime` say happened to it: skipped when the
/// application already opens it, else set or refused as the write answered.
pub open spec fn outcome_of<A: Fn(&str) -> bool, G: Fn(&str) -> Result<(), String>>(
    already_default: A,
    set_default: G,
    mime: Seq<char>,
    o: Outcome,
) -> bool {
    match o {
        Outcome::AlreadyDefault => answered_bool(already_default, mime, true),
        Outcome::Assigned => answered_bool(already_default, mime, false) && answered_set(
            set_default,
            mime,
            None,
        ),
        Outcome::Failed(e) => answered_bool(already_default, mime, false) && answered_set(
            set_default,
            mime,
            Some(e@),
        ),
    }
}

/// The part of `path` below `base`, as `Path::strip_prefix` finds it:
/// compared component by component, and shown as `Path::display` shows it.
pub uninterp spec fn path_below(path: Seq<char>, base: Seq<char>) -> Option<Seq<char>>;

/// `std::path::Path::strip_prefix`: the rest of `path` when `base` is a
/// leading part of it, whole components at a time, else nothing; the result
/// is named by `path_below`, a function of the two paths alone.
#[verifier::external_body]
fn strip_prefix(path: &str, base: &str) -> (r: Option<String>)
    ensures
        opt_string(r) == path_below(path@, base@),
{
    std::path::Path::new(path).strip_prefix(base).ok().map(|rest| rest.display().to_string())
}

/// The view of an optional string.
pub open spec fn opt_string(o: Option<String>) -> Option<Seq<char>> {
    match o {
        Some(s) => Some(s@),
        None => None,
    }
}

/// A path as the user is shown it: `~/` and the rest where it lies below
/// the home directory `home`, else the path as it is.
pub fn shorten_home(path: &str, home: &str) -> (r: String)
    ensures
        match path_below(path@, home@) {
            Some(rest) => r@ == "~/"@ + rest,
            None => r@ == path@,
        },
{
    match strip_prefix(path, home) {
        Some(rest) => {
            let mut r = String::from_str("~/");
            r.append(rest.as_str());
            r
        },
        None => String::from_str(path),
    }
}

/// Whether the application `app` already opens a type, given the id of the
/// application that currently does, if any: nothing needs writing then.
pub fn already_opens(app: &str, current: Option<&str>) -> (r: bool)
    ensures
        r == (current matches Some(c) && c@ == app@),
{
    match current {
        Some(c) => same_text(c, app),
        None => false,
    }
}

/// Makes the application the default for each of `mimes`, in order, skipping
/// those `already_default` says it opens; `set_default` writes one default and
/// reports a refusal with its reason.
pub fn assign_types<A: Fn(&str) -> bool, G: Fn(&str) -> Result<(), String>>(
    mimes: &[&String],
    already_default: A,
    set_default: G,
) -> (r: Assignment)
    requires
        forall|s: &str| #[trigger] call_requires(already_default, (s,)),
        forall|s: &str| #[trigger] call_requires(set_default, (s,)),
    ensures
        exists|outcomes: Seq<Outcome>|
            #![trigger tally(outcomes)]
            outcomes.len() == mimes@.len() && (forall|i: int|
                0 <= i < mimes@.len() ==> outcome_of(
                    already_default,
                    set_default,
                    mimes@[i]@,
                    #[trigger] outcomes[i],
                )) && assignment_view(r) == tally(outcomes),
{
    let mut outcome = Assignment { set: 0, failed: 0, error: None };
    let ghost mut outcomes: Seq<Outcome> = Seq::empty();
    let mut i: usize = 0;
    while i < mimes.len()
        invariant
            i <= mimes@.len(),
            outcomes.len() == i,
            forall|s: &str| #[trigger] call_requires(already_default, (s,)),
            forall|s: &str| #[trigger] call_requires(set_default, (s,)),
            forall|k: int|
                0 <= k < i ==> outcome_of(
                    already_default,
                    set_default,
                    mimes@[k]@,
                    #[trigger] outcomes[k],
                ),
            assignment_view(outcome) == tally(outcomes),
            outcome.set + outcome.failed <= i,
        decreases mimes@.len() - i,
    {
        let mime = mimes[i].as_str();
        let ghost before = outcomes;
        let skip = already_default(mime);
        assert(answered_bool(already_default, mimes@[i as int]@, skip));
        if skip {
            proof {
                outcomes = outcomes.push(Outcome::AlreadyDefault);
                assert(outcome_of(already_default, set_default, mimes@[i as int]@, outcomes[i as int]));
            }
        } else {
            let written = set_default(mime);
            match written {
                Ok(_) => {
                    outcome.set = outcome.set + 1;
                    proof {
                        outcomes = outcomes.push(Outcome::Assigned);
                        assert(answered_set(set_default, mimes@[i as int]@, None));
                        assert(outcome_of(already_default, set_default, mimes@[i as int]@, outcomes[i as int]));
                    }
                },
                Err(error) => {
                    outcome.failed = outcome.failed + 1;
                    proof {
                        outcomes = outcomes.push(Outcome::Failed(error));
                        assert(answered_set(set_default, mimes@[i as int]@, Some(error@)));
                        assert(outcome_of(already_default, set_default, mimes@[i as int]@, outcomes[i as int]));
                    }
                    if outcome.error.is_none() {
                        outcome.error = Some(error);
                    }
                },
            }
        }
        assert(outcomes.drop_last() =~= before);
        assert(forall|k: int| 0 <= k < i ==> outcomes[k] == before[k]);
        i = i + 1;
    }
    outcome
}

/// What to tell the user after a bulk assignment, from its translated
/// template: `{app}`, `{count}` (the types set), `{failed}` and, where a type
/// was refused, `{error}` filled in.
pub open spec fn report_fill(
    template: Seq<char>,
    app: Seq<char>,
    set: nat,
    failed: nat,
    error: Option<Seq<char>>,
) -> Seq<char> {
    fill_opt(
        fill(fill(fill(template, "{app}"@, app), "{count}"@, decimal(set)), "{failed}"@, decimal(failed)),
        "{error}"@,
        error,
    )
}

/// The report after a bulk assignment: that nothing needed changing, how
/// many more types the application opens, or that and how many were
/// refused; the counted ones take their form from the types set.
pub open spec fn report_msg(set: nat, refused: bool) -> (Seq<char>, Option<(Seq<char>, u32)>) {
    if refused {
        counted(
            "{app} now opens {count} more file type, {failed} could not be set: {error}"@,
            "{app} now opens {count} more file types, {failed} could not be set: {error}"@,
            set,
        )
    } else if set == 0 {
        fixed("{app} already opened every type it supports"@)
    } else {
        counted("{app} now opens {count} more file type"@, "{app} now opens {count} more file types"@, set)
    }
}

/// The report, given its translated template.
pub fn fill_report(template: &str, app: &str, set: usize, failed: usize, error: Option<&str>) -> (r: String)
    ensures
        r@ == report_fill(template@, app@, set as nat, failed as nat, opt_view(error)),
{
    proof {
        reveal_strlit("{app}");
        reveal_strlit("{count}");
        reveal_strlit("{failed}");
        reveal_strlit("{error}");
    }
    let a = replace_text(template, "{app}", app);
    let c = replace_text(a.as_str(), "{count}", decimal_text(set).as_str());
    let f = replace_text(c.as_str(), "{failed}", decimal_text(failed).as_str());
    match error {
        Some(e) => replace_text(f.as_str(), "{error}", e),
        None => f,
    }
}

impl Assignment {
    /// The message of the report.
    pub fn report_message(&self) -> (m: Message)
        ensures
            msg_view(m) == report_msg(self.set as nat, self.error is Some),
    {
        let n = plural_count(self.set);
        match &self.error {
            None => if self.set == 0 {
                Message { id: "{app} already opened every type it supports", plural: None }
            } else {
                Message {
                    id: "{app} now opens {count} more file type",
                    plural: Some(("{app} now opens {count} more file types", n)),
                }
            },
            Some(_) => Message {
                id: "{app} now opens {count} more file type, {failed} could not be set: {error}",
                plural: Some(("{app} now opens {count} more file types, {failed} could not be set: {error}", n)),
            },
        }
    }

    /// What to tell the user after a bulk assignment: the template `tr`
    /// gives for `report_message`, filled in.
    pub fn report<T: Fn(&Message) -> String>(&self, app: &str, tr: &T) -> (r: String)
        requires
            can_translate(*tr),
        ensures
            exists|t: Seq<char>|
                #[trigger] translated(*tr, report_msg(self.set as nat, self.error is Some), t) && r@
                    == report_fill(t, app@, self.set as nat, self.failed as nat, assignment_view(*self).2),
    {
        let m = self.report_message();
        let t = text_of(tr, &m);
        let error = match &self.error {
            Some(e) => Some(e.as_str()),
            None => None,
        };
        fill_report(t.as_str(), app, self.set, self.failed, error)
    }
}

/// Installed applications with their full set of openable types: the
/// catalog `records` describe, each application credited with the subtypes
/// `is_a` finds among the types known from `mime_files` and the applications.
pub fn build_catalog<F: Fn(&str, &str) -> bool>(
    records: &[AppRecord],
    mime_files: &[String],
    is_a: F,
) -> (apps: Vec<AppEntry>)
    requires
        forall|s: &str, t: &str| #[trigger] call_requires(is_a, (s, t)),
    ensures
        exists|base: Seq<AppEntry>|
            #![trigger apps_from(records@, base)]
            apps_from(records@, base) && apps@.len() == base.len() && forall|j: int|
                0 <= j < base.len() ==> expanded_from(
                    is_a,
                    known_of(mime_files@, base),
                    base[j],
                    #[trigger] apps@[j],
                ),
{
    let mut apps = installed_apps(records);
    let ghost base = apps@;
    let known = known_mime_types(mime_files, apps.as_slice());
    expand_supported_types(&mut apps, &known, is_a);
    assert(apps_from(records@, base));
    apps
}

proof fn lemma_record_types_merged(recs: Seq<AppRecord>, id: Seq<char>, i: int)
    requires
        0 <= i < recs.len(),
        counts_for(recs[i], id),
    ensures
        texts(recs[i].types@).to_set().subset_of(merged_types(recs, id)),
    decreases recs.len(),
{
    if i < recs.len() - 1 {
        assert(recs.drop_last()[i] == recs[i]);
        lemma_record_types_merged(recs.drop_last(), id, i);
    }
}

/// Every application of the catalog declares at least one type, and no two
/// applications share an id.
pub proof fn lemma_catalog_entries_are_distinct_and_nonempty(
    records: Seq<AppRecord>,
    apps: Seq<AppEntry>,
)
    requires
        apps_from(records, apps),
    ensures
        forall|j: int| 0 <= j < apps.len() ==> #[trigger] apps[j].declared@ != Set::<Seq<char>>::empty(),
        forall|j: int, k: int| 0 <= j < k < apps.len() ==> apps[j].id@ != apps[k].id@,
{
    assert forall|j: int| 0 <= j < apps.len() implies #[trigger] apps[j].declared@ != Set::<
        Seq<char>,
    >::empty() by {
        let e = apps[j];
        assert(entry_from(records, e));
        let i = e.source as int;
        lemma_record_types_merged(records, e.id@, i);
        let t = records[i].types@;
        assert(t.len() > 0);
        assert(texts(t)[0] == t[0]@);
        assert(texts(t).contains(t[0]@));
        assert(texts(t).to_set().contains(t[0]@));
        assert(merged_types(records, e.id@).contains(t[0]@));
    }
    assert forall|j: int, k: int| 0 <= j < k < apps.len() implies apps[j].id@ != apps[k].id@ by {
        if apps[j].id@ == apps[k].id@ {
            assert(entry_from(records, apps[j]));
            assert(entry_from(records, apps[k]));
            let sj = apps[j].source as int;
            let sk = apps[k].source as int;
            assert(sj == sk) by {
                if sj < sk {
                    assert(counts_for(records[sj], apps[k].id@));
                } else if sk < sj {
                    assert(counts_for(records[sk], apps[j].id@));
                }
            }
            assert(app_before(apps[j], apps[k]));
            lemma_pair_lt_asymmetric(
                lowercase(apps[j].name@),
                apps[j].id@,
                lowercase(apps[k].name@),
                apps[k].id@,
            );
        }
    }
}

/// Folding in subtypes never takes away what an application declares: every
/// entry of a built catalog opens at least the types it declares, and every
/// type it gained is a known subtype of one of them.
pub proof fn lemma_catalog_types_cover_declared<F: Fn(&str, &str) -> bool>(
    is_a: F,
    known: Set<Seq<char>>,
    records: Seq<AppRecord>,
    base: Seq<AppEntry>,
    apps: Seq<AppEntry>,
)
    requires
        apps_from(records, base),
        apps.len() == base.len(),
        forall|j: int| 0 <= j < base.len() ==> expanded_from(is_a, known, base[j], #[trigger] apps[j]),
    ensures
        forall|j: int| 0 <= j < apps.len() ==> #[trigger] apps[j].declared@.subset_of(apps[j].types@),
        forall|j: int, k: Seq<char>|
            0 <= j < apps.len() && #[trigger] apps[j].types@.contains(k) && !apps[j].declared@.contains(
                k,
            ) ==> known.contains(k) && exists|p: Seq<char>|
                apps[j].declared@.contains(p) && k != p && #[trigger] answered_is_a(is_a, k, p, true),
{
    assert forall|j: int| 0 <= j < apps.len() implies #[trigger] apps[j].declared@.subset_of(
        apps[j].types@,
    ) by {
        assert(expanded_from(is_a, known, base[j], apps[j]));
        assert(entry_from(records, base[j]));
    }
    assert forall|j: int, k: Seq<char>|
        0 <= j < apps.len() && #[trigger] apps[j].types@.contains(k) && !apps[j].declared@.contains(
            k,
        ) implies known.contains(k) && exists|p: Seq<char>|
        apps[j].declared@.contains(p) && k != p && #[trigger] answered_is_a(is_a, k, p, true) by {
        assert(expanded_from(is_a, known, base[j], apps[j]));
        assert(entry_from(records, base[j]));
    }
}

/// A bulk assignment accounts for each type once: those set and those
/// refused never outnumber the types, and a reason is kept exactly when
/// something was refused.
pub proof fn lemma_tally_accounts_for_each_type(outcomes: Seq<Outcome>)
    ensures
        tally(outcomes).0 + tally(outcomes).1 <= outcomes.len(),
        tally(outcomes).2 is Some <==> tally(outcomes).1 > 0,
    decreases outcomes.len(),
{
    if outcomes.len() > 0 {
        lemma_tally_accounts_for_each_type(outcomes.drop_last());
    }
}

} // verus!
