use vstd::prelude::*;
use super::values::TypedIRValue;
use crate::common::types::Type;

verus! {

/// A single non-terminator IR instruction.
#[derive(Debug)]
pub enum Instruction {
    Nop,
    Declare { name: String, mutable: bool, type_: Type, value: TypedIRValue },
    Assign { target: String, value: TypedIRValue },
    ArrayAssign { array: Box<TypedIRValue>, index: Box<TypedIRValue>, value: TypedIRValue },
    Print { value: TypedIRValue },
    Call { func: String, args: Vec<TypedIRValue>, result: Option<String> },
    IteratorInit { iterator: String, iterable: TypedIRValue },
    ChannelDecl { name: String, type_: Type },
    Send { channel: String, value: TypedIRValue },
    Receive { channel: String, target: String },
    ChannelSend { channel: String, value: TypedIRValue },
    ChannelReceive { channel: String, target: String },
    Allocate { target: String, size: TypedIRValue, type_: Type },
    Free { ptr: TypedIRValue },
    /// Enter a `region NAME` block.
    RegionEnter { name: String },
    /// Exit a `region NAME` block.
    RegionExit { name: String },
}

} // verus!
