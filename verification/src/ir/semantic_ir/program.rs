use vstd::prelude::*;
use super::instructions::Instruction;
use super::terminators::{Terminator, succs};
use crate::common::types::Type;

verus! {

/// A basic block: instructions and, once complete, a terminator.
#[derive(Debug)]
pub struct SemanticBlock {
    pub id: usize,
    pub instructions: Vec<Instruction>,
    pub terminator: Option<Terminator>,
}

/// The successors of a block: those of its terminator, none without one.
pub open spec fn block_succs(b: SemanticBlock) -> Seq<usize> {
    match b.terminator {
        Some(t) => succs(t),
        None => Seq::empty(),
    }
}

impl SemanticBlock {
    pub fn new(id: usize) -> (r: SemanticBlock)
        ensures
            r.id == id,
            r.instructions@.len() == 0,
            r.terminator is None,
    {
        SemanticBlock { id, instructions: Vec::new(), terminator: None }
    }

    pub fn successors(&self) -> (r: Vec<usize>)
        ensures
            r@ == block_succs(*self),
    {
        match &self.terminator {
            Some(t) => t.successors(),
            None => Vec::new(),
        }
    }

    pub fn is_terminated(&self) -> (r: bool)
        ensures
            r == self.terminator is Some,
    {
        self.terminator.is_some()
    }
}

/// A function of the semantic IR.
#[derive(Debug)]
pub struct SemanticFunction {
    pub name: String,
    pub params: Vec<(String, Type)>,
    pub return_type: Type,
    pub blocks: Vec<SemanticBlock>,
    pub entry_block: usize,
    pub is_extern: bool,
}

/// A program of the semantic IR.
#[derive(Debug)]
pub struct SemanticProgram {
    pub functions: Vec<SemanticFunction>,
    pub block_counter: usize,
    /// An extern function's name mapped to its C symbol name, where
    /// `extern ... as "sym"` declared one.
    pub ffi_symbols: Vec<(String, String)>,
    /// Library names that extern declarations requested via `from "lib"`.
    pub ffi_libraries: Vec<String>,
    /// Names of extern functions declared variadic.
    pub variadic_functions: Vec<String>,
}

impl SemanticProgram {
    pub fn new() -> (r: SemanticProgram)
        ensures
            r.functions@.len() == 0,
            r.block_counter == 0,
            r.ffi_symbols@.len() == 0,
            r.ffi_libraries@.len() == 0,
            r.variadic_functions@.len() == 0,
    {
        SemanticProgram {
            functions: Vec::new(),
            block_counter: 0,
            ffi_symbols: Vec::new(),
            ffi_libraries: Vec::new(),
            variadic_functions: Vec::new(),
        }
    }

    /// A fresh block id: the counter's value, which then advances.
    pub fn new_block_id(&mut self) -> (r: usize)
        requires
            old(self).block_counter < usize::MAX,
        ensures
            r == old(self).block_counter,
            final(self).block_counter == old(self).block_counter + 1,
            final(self).functions == old(self).functions,
            final(self).ffi_symbols == old(self).ffi_symbols,
            final(self).ffi_libraries == old(self).ffi_libraries,
            final(self).variadic_functions == old(self).variadic_functions,
    {
        let id = self.block_counter;
        self.block_counter = self.block_counter + 1;
        id
    }
}

} // verus!
