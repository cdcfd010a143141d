//! The semantic IR: typed values, instructions, terminators, blocks,
//! functions and programs.
//!
//! `TypedIRValue::type_of()` returns the type *claimed* by the value
//! node itself; the verifier is what checks the claim.

use vstd::prelude::*;

pub mod values;
pub mod patterns;
pub mod instructions;
pub mod terminators;
pub mod program;
pub mod display;

pub use self::program::{SemanticBlock, SemanticFunction, SemanticProgram};
pub use self::instructions::Instruction;
pub use self::patterns::SemanticPattern;
pub use self::terminators::Terminator;
pub use self::values::{SemanticBinOp, TypedIRValue};

verus! {

} // verus!
