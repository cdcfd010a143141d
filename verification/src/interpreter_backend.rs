//! The backend that runs a program directly instead of compiling it.

use vstd::prelude::*;

verus! {

/// Executes programs directly, without compilation.
pub struct InterpreterBackend;

impl InterpreterBackend {
    pub fn new() -> (r: InterpreterBackend) {
        InterpreterBackend
    }

    /// The backend's name.
    pub fn name(&self) -> (r: &'static str)
        ensures
            r@ == "interpreter"@,
    {
        "interpreter"
    }

    /// A one-line description of the backend.
    pub fn description(&self) -> (r: &'static str)
        ensures
            r@ == "Executes programs directly without compilation"@,
    {
        "Executes programs directly without compilation"
    }

    /// The interpreter runs what it is given.
    pub fn can_execute(&self) -> (r: bool)
        ensures
            r,
    {
        true
    }
}

impl Default for InterpreterBackend {
    fn default() -> (r: InterpreterBackend) {
        InterpreterBackend::new()
    }
}

} // verus!
