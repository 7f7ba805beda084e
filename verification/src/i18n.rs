//! The messages the user reads: which message of the catalogue each text is,
//! and what a translator handed in by the program answered for it.
use vstd::prelude::*;

verus! {

/// A message of the catalogue: its id, and for a message that counts
/// something, its plural id and the number that picks the form.
pub struct Message {
    pub id: &'static str,
    pub plural: Option<(&'static str, u32)>,
}

/// The ids of a message, and for a counted one its plural id and number.
pub open spec fn msg_view(m: Message) -> (Seq<char>, Option<(Seq<char>, u32)>) {
    (
        m.id@,
        match m.plural {
            Some(p) => Some((p.0@, p.1)),
            None => None,
        },
    )
}

/// The view of the message with the fixed id `id`.
pub open spec fn fixed(id: Seq<char>) -> (Seq<char>, Option<(Seq<char>, u32)>) {
    (id, None)
}

/// The view of the counted message with ids `id` and `plural`, its form
/// picked by `count`.
pub open spec fn counted(id: Seq<char>, plural: Seq<char>, count: nat) -> (
    Seq<char>,
    Option<(Seq<char>, u32)>,
) {
    (id, Some((plural, plural_n(count))))
}

/// The number that picks the plural form for a count: the count itself,
/// or the largest `u32` for a count beyond it.
pub open spec fn plural_n(count: nat) -> u32 {
    if count > u32::MAX {
        u32::MAX
    } else {
        count as u32
    }
}

/// `plural_n` of `count`.
pub fn plural_count(count: usize) -> (n: u32)
    ensures
        n == plural_n(count as nat),
{
    if count > 4294967295usize {
        4294967295u32
    } else {
        count as u32
    }
}

/// The translator can be asked about any message.
pub open spec fn can_translate<T: Fn(&Message) -> String>(tr: T) -> bool {
    forall|m: &Message| #[trigger] call_requires(tr, (m,))
}

/// `tr`, asked for the text of the message whose view is `v`, answered `t`.
pub open spec fn translated<T: Fn(&Message) -> String>(
    tr: T,
    v: (Seq<char>, Option<(Seq<char>, u32)>),
    t: Seq<char>,
) -> bool {
    exists|m: &Message, r: String| #[trigger] call_ensures(tr, (m,), r) && msg_view(*m) == v && r@ == t
}

/// The text of `m`, as the translator `tr` gives it.
pub fn text_of<T: Fn(&Message) -> String>(tr: &T, m: &Message) -> (r: String)
    requires
        can_translate(*tr),
    ensures
        translated(*tr, msg_view(*m), r@),
{
    let r = tr(m);
    assert(call_ensures(*tr, (m,), r) && msg_view(*m) == msg_view(*m) && r@ == r@);
    r
}

/// Marks a literal for extraction without translating it here, for the tables
/// that have to stay fixed. It is translated where it is shown.
#[allow(non_snake_case)]
pub fn N_(text: &'static str) -> (r: &'static str)
    ensures
        r == text,
{
    text
}

} // verus!
