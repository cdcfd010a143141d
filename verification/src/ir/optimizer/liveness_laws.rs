//! What dead-code elimination promises of the variables terminators read.

use vstd::prelude::*;
use crate::common::closure::is_chain;
use crate::ir::semantic_ir::instructions::Instruction;
use crate::ir::semantic_ir::terminators::Terminator;
use crate::ir::semantic_ir::program::SemanticBlock;
use super::liveness::{value_vars, values_vars, live, seeds_of, term_seeds, instr_seeds, instrs_seeds, deps_next, deps_of};
use crate::ir::optimizer::dead;

verus! {

/// The terminator of block `k` reads `n`: `n` occurs in the value it
/// returns, the condition it branches on, or the value it switches on.
pub open spec fn terminator_reads(bs: Seq<SemanticBlock>, k: int, n: Seq<char>) -> bool {
    0 <= k < bs.len() && match bs[k].terminator {
        Some(Terminator::Return { value: Some(v), .. }) => value_vars(v).contains(n),
        Some(Terminator::Branch { condition, .. }) => value_vars(condition).contains(n),
        Some(Terminator::Switch { value, .. }) => value_vars(value).contains(n),
        _ => false,
    }
}

proof fn lemma_seeds_hold_terminator(bs: Seq<SemanticBlock>, k: int, n: Seq<char>)
    requires
        0 <= k < bs.len(),
        term_seeds(bs[k].terminator).contains(n),
    ensures
        seeds_of(bs).contains(n),
    decreases bs.len(),
{
    if k < bs.len() - 1 {
        assert(bs.drop_last()[k] == bs[k]);
        lemma_seeds_hold_terminator(bs.drop_last(), k, n);
    }
}

/// Every variable a terminator reads is live.
pub proof fn lemma_terminator_reads_live(bs: Seq<SemanticBlock>, k: int, n: Seq<char>)
    requires
        terminator_reads(bs, k, n),
    ensures
        live(bs, n),
{
    let t = bs[k].terminator;
    match t {
        Some(Terminator::Return { value: Some(v), .. }) => { assert(value_vars(v).to_set().contains(n)); },
        Some(Terminator::Branch { condition, .. }) => { assert(value_vars(condition).to_set().contains(n)); },
        Some(Terminator::Switch { value, .. }) => { assert(value_vars(value).to_set().contains(n)); },
        _ => {},
    }
    lemma_seeds_hold_terminator(bs, k, n);
    let c = seq![n];
    assert(is_chain(deps_next(deps_of(bs)), c));
    assert(c.last() == n);
}

/// Dead-code elimination keeps every declaration of a variable that a
/// terminator reads: such a declaration survives the filtering of any
/// block that holds it.
pub proof fn lemma_declarations_read_by_terminators_kept(bs: Seq<SemanticBlock>, k: int, n: Seq<char>, j: int, ins: Instruction)
    requires
        terminator_reads(bs, k, n),
        0 <= j < bs.len(),
        bs[j].instructions@.contains(ins),
        ins matches Instruction::Declare { name, .. } && name@ == n,
    ensures
        !dead(bs, ins),
        bs[j].instructions@.filter(|x: Instruction| !dead(bs, x)).contains(ins),
{
    broadcast use vstd::seq_lib::group_filter_ensures;
    lemma_terminator_reads_live(bs, k, n);
    let f = bs[j].instructions@.filter(|x: Instruction| !dead(bs, x));
    let q = choose|q: int| 0 <= q < bs[j].instructions@.len() && bs[j].instructions@[q] == ins;
    bs[j].instructions@.lemma_filter_contains(|x: Instruction| !dead(bs, x), q);
}

/// Instruction `q` of block `j` reads `n` observably: `n` occurs in the
/// value it prints, the arguments of a call, the array, index or value
/// of an element assignment, the value it sends, the size it allocates,
/// the pointer it frees, or what it iterates over.
pub open spec fn instruction_reads(bs: Seq<SemanticBlock>, j: int, q: int, n: Seq<char>) -> bool {
    0 <= j < bs.len() && 0 <= q < bs[j].instructions@.len() && match bs[j].instructions@[q] {
        Instruction::Print { value } => value_vars(value).contains(n),
        Instruction::Call { args, .. } => values_vars(args@).contains(n),
        Instruction::ArrayAssign { array, index, value } =>
            value_vars(*array).contains(n) || value_vars(*index).contains(n) || value_vars(value).contains(n),
        Instruction::Send { value, .. } => value_vars(value).contains(n),
        Instruction::ChannelSend { value, .. } => value_vars(value).contains(n),
        Instruction::Allocate { size, .. } => value_vars(size).contains(n),
        Instruction::Free { ptr } => value_vars(ptr).contains(n),
        Instruction::IteratorInit { iterable, .. } => value_vars(iterable).contains(n),
        _ => false,
    }
}

proof fn lemma_instrs_seeds_hold(is: Seq<Instruction>, q: int, n: Seq<char>)
    requires
        0 <= q < is.len(),
        instr_seeds(is[q]).contains(n),
    ensures
        instrs_seeds(is).contains(n),
    decreases is.len(),
{
    if q < is.len() - 1 {
        assert(is.drop_last()[q] == is[q]);
        lemma_instrs_seeds_hold(is.drop_last(), q, n);
    }
}

proof fn lemma_seeds_hold_instruction(bs: Seq<SemanticBlock>, j: int, n: Seq<char>)
    requires
        0 <= j < bs.len(),
        instrs_seeds(bs[j].instructions@).contains(n),
    ensures
        seeds_of(bs).contains(n),
    decreases bs.len(),
{
    if j < bs.len() - 1 {
        assert(bs.drop_last()[j] == bs[j]);
        lemma_seeds_hold_instruction(bs.drop_last(), j, n);
    }
}

/// Every variable an instruction reads observably is live, so
/// dead-code elimination keeps its declarations.
pub proof fn lemma_observable_reads_live(bs: Seq<SemanticBlock>, j: int, q: int, n: Seq<char>)
    requires
        instruction_reads(bs, j, q, n),
    ensures
        live(bs, n),
        forall|ins: Instruction| #![auto] (ins matches Instruction::Declare { name, .. } && name@ == n) ==> !dead(bs, ins),
{
    let i = bs[j].instructions@[q];
    match i {
        Instruction::Print { value } => { assert(value_vars(value).to_set().contains(n)); },
        Instruction::Call { args, .. } => { assert(values_vars(args@).to_set().contains(n)); },
        Instruction::ArrayAssign { array, index, value } => {
            let all = value_vars(*array) + value_vars(*index) + value_vars(value);
            if value_vars(*array).contains(n) {
                let p = choose|p: int| 0 <= p < value_vars(*array).len() && value_vars(*array)[p] == n;
                assert(all[p] == n);
            } else if value_vars(*index).contains(n) {
                let p = choose|p: int| 0 <= p < value_vars(*index).len() && value_vars(*index)[p] == n;
                assert(all[value_vars(*array).len() + p] == n);
            } else {
                let p = choose|p: int| 0 <= p < value_vars(value).len() && value_vars(value)[p] == n;
                assert(all[value_vars(*array).len() + value_vars(*index).len() + p] == n);
            }
            assert(all.to_set().contains(n));
        },
        Instruction::Send { value, .. } => { assert(value_vars(value).to_set().contains(n)); },
        Instruction::ChannelSend { value, .. } => { assert(value_vars(value).to_set().contains(n)); },
        Instruction::Allocate { size, .. } => { assert(value_vars(size).to_set().contains(n)); },
        Instruction::Free { ptr } => { assert(value_vars(ptr).to_set().contains(n)); },
        Instruction::IteratorInit { iterable, .. } => { assert(value_vars(iterable).to_set().contains(n)); },
        _ => {},
    }
    lemma_instrs_seeds_hold(bs[j].instructions@, q, n);
    lemma_seeds_hold_instruction(bs, j, n);
    let c = seq![n];
    assert(is_chain(deps_next(deps_of(bs)), c));
    assert(c.last() == n);
}

} // verus!
