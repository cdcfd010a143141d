use vstd::prelude::*;

pub mod types;
pub mod text;
pub mod assoc;
pub mod span;
pub mod closure;
pub mod chars;
pub mod debug_text;

verus! {

} // verus!
