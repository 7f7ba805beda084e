//! A set of content type names kept in the order of `BTreeSet<String>`,
//! which the list, the sidebar and the bulk actions walk in.
use crate::text::{chars_of, lemma_text_lt_irreflexive, lemma_text_lt_total, lemma_text_lt_transitive, same_chars, text_less, text_lt};
use vstd::prelude::*;
use vstd::string::StringExecFns;

verus! {

/// Whether `q` is in strictly increasing code point order; such a sequence
/// holds no element twice.
pub open spec fn strictly_sorted(q: Seq<Seq<char>>) -> bool {
    forall|i: int, j: int| 0 <= i < j < q.len() ==> text_lt(q[i], q[j])
}

/// The views of a sequence of strings.
pub open spec fn texts(v: Seq<String>) -> Seq<Seq<char>> {
    v.map_values(|s: String| s@)
}

/// The views of strings handed out by reference.
pub open spec fn ref_texts(v: Seq<&String>) -> Seq<Seq<char>> {
    v.map_values(|s: &String| s@)
}

/// A finite set of type names, iterated in increasing order.
pub struct TypeSet {
    items: Vec<String>,
}

impl View for TypeSet {
    type V = Set<Seq<char>>;

    open spec fn view(&self) -> Set<Seq<char>> {
        self.seq().to_set()
    }
}

/// A strictly sorted sequence holds no element twice.
pub proof fn lemma_sorted_no_duplicates(q: Seq<Seq<char>>)
    requires
        strictly_sorted(q),
    ensures
        q.no_duplicates(),
{
    assert forall|i: int, j: int| 0 <= i < q.len() && 0 <= j < q.len() && i != j implies q[i]
        != q[j] by {
        if i < j {
            lemma_text_lt_irreflexive(q[i]);
        } else {
            lemma_text_lt_irreflexive(q[j]);
        }
    }
}

impl TypeSet {
    /// The members in iteration order.
    pub closed spec fn seq(&self) -> Seq<Seq<char>> {
        texts(self.items@)
    }

    /// Every `TypeSet` holds its members in strictly increasing order.
    #[verifier::type_invariant]
    pub closed spec fn sorted(&self) -> bool {
        strictly_sorted(self.seq())
    }

    /// What `sorted` means: the members are iterated in strictly increasing
    /// order, once each.
    pub proof fn lemma_order(&self)
        requires
            self.sorted(),
        ensures
            strictly_sorted(self.seq()),
            self.seq().no_duplicates(),
            self@.finite(),
            self@.len() == self.seq().len(),
    {
        lemma_sorted_no_duplicates(self.seq());
        self.seq().unique_seq_to_set();
    }

    /// An empty set.
    pub fn new() -> (s: Self)
        ensures
            s.seq() == Seq::<Seq<char>>::empty(),
            s@ == Set::<Seq<char>>::empty(),
    {
        let s = TypeSet { items: Vec::new() };
        assert(s.seq() =~= Seq::<Seq<char>>::empty());
        assert(s@ =~= Set::<Seq<char>>::empty());
        s
    }

    /// How many members there are.
    pub fn len(&self) -> (n: usize)
        ensures
            n == self.seq().len(),
            n == self@.len(),
    {
        proof {
            use_type_invariant(self);
            lemma_sorted_no_duplicates(self.seq());
            self.seq().unique_seq_to_set();
        }
        self.items.len()
    }

    /// Whether there are no members.
    pub fn is_empty(&self) -> (b: bool)
        ensures
            b == (self@ == Set::<Seq<char>>::empty()),
            b == (self.seq().len() == 0),
    {
        if self.items.len() == 0 {
            assert(self@ =~= Set::<Seq<char>>::empty());
            true
        } else {
            assert(self@.contains(self.seq()[0]));
            false
        }
    }

    /// The member at position `i` of the iteration order.
    pub fn get(&self, i: usize) -> (r: &String)
        requires
            i < self.seq().len(),
        ensures
            r@ == self.seq()[i as int],
    {
        &self.items[i]
    }

    /// The first position whose member does not come before `key`.
    fn lower_bound(&self, key: &[char]) -> (pos: usize)
        ensures
            pos <= self.seq().len(),
            forall|k: int| 0 <= k < pos ==> text_lt(#[trigger] self.seq()[k], key@),
            forall|k: int| pos <= k < self.seq().len() ==> !text_lt(#[trigger] self.seq()[k], key@),
    {
        proof {
            use_type_invariant(self);
        }
        let mut lo: usize = 0;
        let mut hi: usize = self.items.len();
        while lo < hi
            invariant
                strictly_sorted(self.seq()),
                self.seq().len() == self.items@.len(),
                lo <= hi <= self.items@.len(),
                forall|k: int| 0 <= k < lo ==> text_lt(#[trigger] self.seq()[k], key@),
                forall|k: int| hi <= k < self.seq().len() ==> !text_lt(#[trigger] self.seq()[k], key@),
            decreases hi - lo,
        {
            let mid = lo + (hi - lo) / 2;
            let cs = chars_of(self.items[mid].as_str());
            if text_less(cs.as_slice(), key) {
                proof {
                    assert forall|k: int| 0 <= k < mid + 1 implies text_lt(#[trigger] self.seq()[k], key@) by {
                        if k < mid {
                            lemma_text_lt_transitive(self.seq()[k], self.seq()[mid as int], key@);
                        }
                    }
                }
                lo = mid + 1;
            } else {
                proof {
                    assert forall|k: int| mid <= k < self.seq().len() implies !text_lt(#[trigger] self.seq()[k], key@) by {
                        if k > mid && text_lt(self.seq()[k], key@) {
                            lemma_text_lt_transitive(self.seq()[mid as int], self.seq()[k], key@);
                        }
                    }
                }
                hi = mid;
            }
        }
        lo
    }

    /// Where `key` is, or where it would go.
    fn find(&self, key: &[char]) -> (r: (usize, bool))
        ensures
            r.0 <= self.seq().len(),
            r.1 == self@.contains(key@),
            r.1 ==> r.0 < self.seq().len() && self.seq()[r.0 as int] == key@,
            !r.1 ==> forall|k: int| 0 <= k < r.0 ==> text_lt(#[trigger] self.seq()[k], key@),
            !r.1 ==> forall|k: int| r.0 <= k < self.seq().len() ==> text_lt(key@, #[trigger] self.seq()[k]),
    {
        proof {
            use_type_invariant(self);
        }
        let pos = self.lower_bound(key);
        let found = if pos < self.items.len() {
            let cs = chars_of(self.items[pos].as_str());
            same_chars(cs.as_slice(), key)
        } else {
            false
        };
        proof {
            if found {
                assert(self.seq()[pos as int] == key@);
                assert(self.seq().contains(key@));
            } else {
                assert forall|k: int| pos <= k < self.seq().len() implies text_lt(key@, #[trigger] self.seq()[k]) by {
                    if self.seq()[k] == key@ {
                        if k > pos {
                            lemma_text_lt_transitive(self.seq()[pos as int], self.seq()[k], key@);
                            assert(false);
                        }
                    } else {
                        lemma_text_lt_total(self.seq()[k], key@);
                    }
                }
                assert forall|k: int| 0 <= k < self.seq().len() implies self.seq()[k] != key@ by {
                    if k < pos {
                        lemma_text_lt_irreflexive(key@);
                    } else {
                        lemma_text_lt_irreflexive(key@);
                    }
                }
            }
        }
        (pos, found)
    }

    /// Whether `key` is a member.
    pub fn contains(&self, key: &str) -> (b: bool)
        ensures
            b == self@.contains(key@),
    {
        let cs = chars_of(key);
        self.find(cs.as_slice()).1
    }

    /// The position of `key` in the iteration order, if it is a member.
    pub fn position(&self, key: &str) -> (r: Option<usize>)
        ensures
            match r {
                Some(i) => i < self.seq().len() && self.seq()[i as int] == key@,
                None => !self@.contains(key@),
            },
    {
        let cs = chars_of(key);
        let (pos, found) = self.find(cs.as_slice());
        if found {
            Some(pos)
        } else {
            None
        }
    }

    /// Adds `key`; nothing changes if it is a member already.
    pub fn insert(&mut self, key: String)
        ensures
            final(self)@ == old(self)@.insert(key@),
    {
        proof {
            use_type_invariant(&*self);
        }
        let cs = chars_of(key.as_str());
        let (pos, found) = self.find(cs.as_slice());
        if found {
            assert(old(self)@.insert(key@) =~= old(self)@);
            return;
        }
        let mut items: Vec<String> = Vec::new();
        std::mem::swap(&mut items, &mut self.items);
        let ghost old_seq = texts(items@);
        assert(old_seq == old(self).seq());
        items.insert(pos, key);
        let ghost new_seq = texts(items@);
        assert(new_seq =~= old_seq.take(pos as int).push(key@) + old_seq.skip(pos as int));
        assert forall|i: int, j: int| 0 <= i < j < new_seq.len() implies text_lt(new_seq[i], new_seq[j]) by {
            if j < pos {
                assert(new_seq[i] == old_seq[i] && new_seq[j] == old_seq[j]);
            } else if j == pos {
                assert(new_seq[i] == old_seq[i]);
            } else if i < pos {
                assert(new_seq[i] == old_seq[i] && new_seq[j] == old_seq[j - 1]);
            } else if i == pos {
                assert(new_seq[j] == old_seq[j - 1]);
            } else {
                assert(new_seq[i] == old_seq[i - 1] && new_seq[j] == old_seq[j - 1]);
            }
        }
        assert forall|x: Seq<char>| new_seq.contains(x) <==> old_seq.contains(x) || x == key@ by {
            if new_seq.contains(x) {
                let i = choose|i: int| 0 <= i < new_seq.len() && new_seq[i] == x;
                if i < pos {
                    assert(old_seq[i] == x);
                } else if i > pos {
                    assert(old_seq[i - 1] == x);
                }
            }
            if old_seq.contains(x) {
                let i = choose|i: int| 0 <= i < old_seq.len() && old_seq[i] == x;
                if i < pos {
                    assert(new_seq[i] == x);
                } else {
                    assert(new_seq[i + 1] == x);
                }
            }
            if x == key@ {
                assert(new_seq[pos as int] == x);
            }
        }
        self.items = items;
        assert(final(self)@ =~= old(self)@.insert(key@));
    }

    /// Adds every member of `other`.
    pub fn extend(&mut self, other: &TypeSet)
        ensures
            final(self)@ == old(self)@.union(other@),
    {
        let mut i: usize = 0;
        while i < other.len()
            invariant
                i <= other.seq().len(),
                self@ == old(self)@.union(other.seq().take(i as int).to_set()),
            decreases other.seq().len() - i,
        {
            let s = other.get(i).clone();
            self.insert(s);
            assert(other.seq().take(i + 1) =~= other.seq().take(i as int).push(other.seq()[i as int]));
            proof {
                other.seq().take(i as int).lemma_push_to_set_commute(other.seq()[i as int]);
            }
            assert(self@ =~= old(self)@.union(other.seq().take(i + 1).to_set()));
            i = i + 1;
        }
        assert(other.seq().take(other.seq().len() as int) =~= other.seq());
    }

    /// The set of the given names.
    pub fn from_strs(list: &[&str]) -> (s: Self)
        ensures
            s@ == list@.map_values(|x: &str| x@).to_set(),
    {
        let mut s = TypeSet::new();
        let mut i: usize = 0;
        while i < list.len()
            invariant
                i <= list@.len(),
                s@ == list@.take(i as int).map_values(|x: &str| x@).to_set(),
            decreases list@.len() - i,
        {
            s.insert(String::from_str(list[i]));
            assert(list@.take(i + 1).map_values(|x: &str| x@) =~= list@.take(i as int).map_values(
                |x: &str| x@,
            ).push(list@[i as int]@));
            proof {
                list@.take(i as int).map_values(|x: &str| x@).lemma_push_to_set_commute(
                    list@[i as int]@,
                );
            }
            assert(s@ =~= list@.take(i + 1).map_values(|x: &str| x@).to_set());
            i = i + 1;
        }
        assert(list@.take(list@.len() as int) =~= list@);
        s
    }
}

impl Clone for TypeSet {
    fn clone(&self) -> (r: Self)
        ensures
            r.seq() == self.seq(),
            r@ == self@,
    {
        proof {
            use_type_invariant(self);
        }
        let mut items: Vec<String> = Vec::new();
        let mut i: usize = 0;
        while i < self.items.len()
            invariant
                i <= self.items@.len(),
                texts(items@) == self.seq().take(i as int),
            decreases self.items@.len() - i,
        {
            let ghost before = items@;
            let x = self.items[i].clone();
            assert(x@ == self.seq()[i as int]);
            items.push(x);
            assert(items@ == before.push(x));
            assert(texts(items@) =~= texts(before).push(x@));
            assert(self.seq().take(i + 1) =~= self.seq().take(i as int).push(self.seq()[i as int]));
            assert(texts(items@) =~= self.seq().take(i + 1));
            i = i + 1;
        }
        assert(self.seq().take(self.items@.len() as int) =~= self.seq());
        TypeSet { items }
    }
}

/// The set of the given names.
pub fn set_of(list: &[String]) -> (s: TypeSet)
    ensures
        s@ == texts(list@).to_set(),
{
    let mut s = TypeSet::new();
    let mut i: usize = 0;
    while i < list.len()
        invariant
            i <= list@.len(),
            s@ == texts(list@).take(i as int).to_set(),
        decreases list@.len() - i,
    {
        s.insert(list[i].clone());
        assert(texts(list@).take(i + 1) =~= texts(list@).take(i as int).push(list@[i as int]@));
        proof {
            texts(list@).take(i as int).lemma_push_to_set_commute(list@[i as int]@);
        }
        assert(s@ =~= texts(list@).take(i + 1).to_set());
        i = i + 1;
    }
    assert(texts(list@).take(list@.len() as int) =~= texts(list@));
    s
}

} // verus!
