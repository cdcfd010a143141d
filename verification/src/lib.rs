//! The verified core of the ALGOL26 compiler: its type language, generic
//! specialization plan and name mangling, and the passes over its
//! semantic IR.

use vstd::prelude::*;

pub mod common;
pub mod frontend;
pub mod ir;
pub mod interpreter_backend;

verus! {

} // verus!
