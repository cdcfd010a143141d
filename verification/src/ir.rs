use vstd::prelude::*;

pub mod instantiation_plan;
pub mod mangling_laws;
pub mod call_ids;
pub mod semantic_ir;
pub mod graph;
pub mod cfg_verifier;
pub mod defer_lowering;
pub mod optimizer;
pub mod monomorphize;
pub mod semantic_verifier;
pub mod cfg;
pub mod lowered;
pub mod verified_ir;

pub use self::lowered::{IRBlock, IRBuilder, IRConstant, IRFunction, IRInstruction, IRProgram, IRValue};

verus! {

/// The types of the lowered, untyped-value IR.
#[derive(Debug, PartialEq)]
pub enum IRType {
    Void,
    Int,
    Float,
    String,
    Bool,
    List(usize),
    Pointer(Box<IRType>),
}

/// Binary operators of the lowered IR.
#[derive(Debug, Clone, Copy, PartialEq, Eq, Structural)]
pub enum IRBinOp {
    Add,
    Subtract,
    Multiply,
    Divide,
    Greater,
    Less,
    GreaterEqual,
    LessEqual,
    Equal,
    NotEqual,
    And,
    Or,
}

} // verus!
