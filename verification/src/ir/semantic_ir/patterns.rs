use vstd::prelude::*;
use super::values::TypedIRValue;

verus! {

/// The pattern language of `Terminator::Switch`, used to lower `match`.
#[derive(Debug)]
pub enum SemanticPattern {
    SomeBinding { binding: String },
    NoneCase,
    OkBinding { binding: String },
    Error { binding: String },
    Wildcard,
    Literal(TypedIRValue),
    Record { name: String, bindings: Vec<String> },
}

} // verus!
