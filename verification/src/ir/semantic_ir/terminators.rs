use vstd::prelude::*;
use super::patterns::SemanticPattern;
use super::values::TypedIRValue;
use crate::common::types::Type;

verus! {

/// The last instruction of a `SemanticBlock`.
#[derive(Debug)]
pub enum Terminator {
    Return { value: Option<TypedIRValue>, type_: Type },
    Jump { block: usize },
    Branch { condition: TypedIRValue, then_block: usize, else_block: usize },
    Switch { value: TypedIRValue, cases: Vec<(SemanticPattern, usize)>, default_block: Option<usize> },
    IteratorNext { iterator: String, target: String, body_block: usize, exit_block: usize },
    Spawn { entry_block: usize },
    Fork { blocks: Vec<usize>, join_block: usize },
}

/// The blocks control can pass to directly from a terminator, in order.
///
/// The join block of a fork is not a direct successor: control reaches
/// it only after every branch has run and jumped to it.
pub open spec fn succs(t: Terminator) -> Seq<usize> {
    match t {
        Terminator::Jump { block } => seq![block],
        Terminator::Branch { then_block, else_block, .. } => seq![then_block, else_block],
        Terminator::IteratorNext { body_block, exit_block, .. } => seq![body_block, exit_block],
        Terminator::Switch { cases, default_block, .. } => {
            let targets = Seq::new(cases@.len(), |i: int| cases@[i].1);
            match default_block {
                Some(d) => targets.push(d),
                None => targets,
            }
        },
        Terminator::Spawn { entry_block } => seq![entry_block],
        Terminator::Fork { blocks, .. } => blocks@,
        Terminator::Return { .. } => Seq::empty(),
    }
}

impl Terminator {
    pub fn successors(&self) -> (r: Vec<usize>)
        ensures
            r@ == succs(*self),
    {
        match self {
            Terminator::Jump { block } => vec![*block],
            Terminator::Branch { then_block, else_block, .. } => vec![*then_block, *else_block],
            Terminator::IteratorNext { body_block, exit_block, .. } => vec![*body_block, *exit_block],
            Terminator::Switch { cases, default_block, .. } => {
                let mut v: Vec<usize> = Vec::new();
                let mut i: usize = 0;
                while i < cases.len()
                    invariant
                        0 <= i <= cases@.len(),
                        v@ == Seq::new(i as nat, |j: int| cases@[j].1),
                    decreases cases@.len() - i,
                {
                    v.push(cases[i].1);
                    i = i + 1;
                    assert(v@ =~= Seq::new(i as nat, |j: int| cases@[j].1));
                }
                if let Some(d) = default_block {
                    v.push(*d);
                }
                v
            },
            Terminator::Spawn { entry_block } => vec![*entry_block],
            Terminator::Fork { blocks, .. } => blocks.clone(),
            Terminator::Return { .. } => Vec::new(),
        }
    }
}

} // verus!
