use vstd::prelude::*;

pub mod text;
pub mod typeset;
pub mod catalog;
pub mod category;
pub mod i18n;
pub mod entry;
pub mod window;
pub mod sidebar;
pub mod messages;

verus! {
} // verus!
