//! Structural verification of the control-flow graph of each function of
//! a `SemanticProgram`:
//!   - the function has blocks, with distinct ids, one of them the entry;
//!   - every block has a terminator (extern functions excepted);
//!   - every successor is a block of the function;
//!   - every block is reachable from the entry;
//!   - no switch names the same target twice;
//!   - fork shape: each branch is entered only from the fork block, the
//!     join is not a branch, and no branch reaches another branch,
//!     returns, or holds nested concurrency before reaching the join;
//!   - function names are distinct across the program.

use vstd::prelude::*;
use crate::ir::graph::{adj_model, reachable, reach, adj_succs, reachable_from, contains, lemma_reach_in_closed, lemma_adj_succs, lemma_adj_succs_at};
use crate::ir::semantic_ir::program::{SemanticBlock, SemanticFunction, SemanticProgram, block_succs};
use crate::ir::semantic_ir::terminators::Terminator;
use crate::common::text::{dec, decimal};

verus! {

broadcast use vstd::seq_lib::group_seq_properties;

/// A structural defect of a function's control-flow graph.
#[derive(Debug)]
pub enum CfgError {
    NoBlocks { function: String },
    DuplicateBlockId { function: String, block: usize },
    EntryNotFound { function: String, entry: usize },
    MissingTerminator { function: String, block: usize },
    UnknownSuccessor { function: String, block: usize, target: usize },
    UnreachableBlock { function: String, block: usize },
    DuplicateSwitchTarget { function: String, block: usize, target: usize },
    ForkBranchPredecessors { function: String, fork: usize, branch: usize, count: usize },
    ForkJoinIsBranch { function: String, fork: usize, join: usize },
    ForkBranchReachesBranch { function: String, fork: usize, branch: usize, other: usize },
    ForkBranchReturns { function: String, fork: usize, branch: usize },
    ForkNestedConcurrency { function: String, fork: usize, branch: usize },
    DuplicateFunction { function: String },
}

/// `Function '{f}'`.
pub open spec fn fn_text(f: Seq<char>) -> Seq<char> {
    "Function '"@ + f + "'"@
}

/// `Function '{f}' fork at block {fork}: `.
pub open spec fn fork_text(f: Seq<char>, fork: usize) -> Seq<char> {
    fn_text(f) + " fork at block "@ + dec(fork as nat) + ": "@
}

/// The sentence that reports a defect.
pub open spec fn error_text(e: CfgError) -> Seq<char> {
    match e {
        CfgError::NoBlocks { function } => fn_text(function@) + " has no blocks"@,
        CfgError::DuplicateBlockId { function, block } => fn_text(function@) + " has duplicate block id "@ + dec(block as nat),
        CfgError::EntryNotFound { function, entry } => fn_text(function@) + " entry block "@ + dec(entry as nat) + " not found"@,
        CfgError::MissingTerminator { function, block } => fn_text(function@) + " block "@ + dec(block as nat) + " has no terminator"@,
        CfgError::UnknownSuccessor { function, block, target } =>
            fn_text(function@) + " block "@ + dec(block as nat) + " jumps to unknown block "@ + dec(target as nat),
        CfgError::UnreachableBlock { function, block } => fn_text(function@) + " has unreachable block "@ + dec(block as nat),
        CfgError::DuplicateSwitchTarget { function, block, target } =>
            fn_text(function@) + " block "@ + dec(block as nat) + " has duplicate switch case target "@ + dec(target as nat),
        CfgError::ForkBranchPredecessors { function, fork, branch, count } => if count == 0 {
            fork_text(function@, fork) + "branch "@ + dec(branch as nat) + " has no predecessor"@
        } else {
            fork_text(function@, fork) + "branch "@ + dec(branch as nat) + " has "@ + dec(count as nat)
                + " predecessor(s); expected exactly one (from the fork)"@
        },
        CfgError::ForkJoinIsBranch { function, fork, join } =>
            fork_text(function@, fork) + "join block "@ + dec(join as nat) + " also appears as a branch"@,
        CfgError::ForkBranchReachesBranch { function, fork, branch, other } =>
            fork_text(function@, fork) + "branch "@ + dec(branch as nat) + " reaches branch "@ + dec(other as nat),
        CfgError::ForkBranchReturns { function, fork, branch } =>
            fork_text(function@, fork) + "branch "@ + dec(branch as nat) + " returns from the function, which the parallel model does not allow"@,
        CfgError::ForkNestedConcurrency { function, fork, branch } =>
            fork_text(function@, fork) + "branch "@ + dec(branch as nat) + " contains nested concurrency, which the parallel model does not allow"@,
        CfgError::DuplicateFunction { function } => "Duplicate function name '"@ + function@ + "'"@,
    }
}

/// `s` followed by `t`.
fn then_str(s: String, t: &str) -> (r: String)
    ensures
        r@ == s@ + t@,
{
    let mut s = s;
    s.append(t);
    s
}

/// `s` followed by the decimal form of `n`.
fn then_num(s: String, n: usize) -> (r: String)
    ensures
        r@ == s@ + dec(n as nat),
{
    let mut s = s;
    s.append(decimal(n).as_str());
    s
}

/// `Function '{f}'`.
fn fn_head(f: &String) -> (r: String)
    ensures
        r@ == fn_text(f@),
{
    let mut s = "Function '".to_string();
    s.append(f.as_str());
    s.append("'");
    s
}

/// `Function '{f}' fork at block {fork}: `.
fn fork_head(f: &String, fork: usize) -> (r: String)
    ensures
        r@ == fork_text(f@, fork),
{
    then_str(then_num(then_str(fn_head(f), " fork at block "), fork), ": ")
}

impl CfgError {
    /// The error as a sentence.
    pub fn message(&self) -> (r: String)
        ensures
            r@ == error_text(*self),
    {
        match self {
            CfgError::NoBlocks { function } => then_str(fn_head(function), " has no blocks"),
            CfgError::DuplicateBlockId { function, block } =>
                then_num(then_str(fn_head(function), " has duplicate block id "), *block),
            CfgError::EntryNotFound { function, entry } =>
                then_str(then_num(then_str(fn_head(function), " entry block "), *entry), " not found"),
            CfgError::MissingTerminator { function, block } =>
                then_str(then_num(then_str(fn_head(function), " block "), *block), " has no terminator"),
            CfgError::UnknownSuccessor { function, block, target } =>
                then_num(then_str(then_num(then_str(fn_head(function), " block "), *block), " jumps to unknown block "), *target),
            CfgError::UnreachableBlock { function, block } =>
                then_num(then_str(fn_head(function), " has unreachable block "), *block),
            CfgError::DuplicateSwitchTarget { function, block, target } =>
                then_num(then_str(then_num(then_str(fn_head(function), " block "), *block), " has duplicate switch case target "), *target),
            CfgError::ForkBranchPredecessors { function, fork, branch, count } => {
                let head = then_num(then_str(fork_head(function, *fork), "branch "), *branch);
                if *count == 0 {
                    then_str(head, " has no predecessor")
                } else {
                    then_str(then_num(then_str(head, " has "), *count), " predecessor(s); expected exactly one (from the fork)")
                }
            },
            CfgError::ForkJoinIsBranch { function, fork, join } =>
                then_str(then_num(then_str(fork_head(function, *fork), "join block "), *join), " also appears as a branch"),
            CfgError::ForkBranchReachesBranch { function, fork, branch, other } =>
                then_num(then_str(then_num(then_str(fork_head(function, *fork), "branch "), *branch), " reaches branch "), *other),
            CfgError::ForkBranchReturns { function, fork, branch } =>
                then_str(then_num(then_str(fork_head(function, *fork), "branch "), *branch),
                    " returns from the function, which the parallel model does not allow"),
            CfgError::ForkNestedConcurrency { function, fork, branch } =>
                then_str(then_num(then_str(fork_head(function, *fork), "branch "), *branch),
                    " contains nested concurrency, which the parallel model does not allow"),
            CfgError::DuplicateFunction { function } => {
                let mut s = "Duplicate function name '".to_string();
                s.append(function.as_str());
                s.append("'");
                s
            },
        }
    }
}

// ─── The function's graph ───────────────────────────────────────────

/// The block ids, in block order.
pub open spec fn ids(f: SemanticFunction) -> Seq<usize> {
    Seq::new(f.blocks@.len(), |i: int| f.blocks@[i].id)
}

/// The adjacency of the function's blocks.
pub open spec fn adj(f: SemanticFunction) -> Seq<(usize, Seq<usize>)> {
    Seq::new(f.blocks@.len(), |i: int| (f.blocks@[i].id, block_succs(f.blocks@[i])))
}

/// Block `i` repeats the id of an earlier block.
pub open spec fn dup_at(f: SemanticFunction, i: int) -> bool {
    exists|j: int| 0 <= j < i && ids(f)[j] == ids(f)[i]
}

/// The `j`-th successor of block `i` is not a block of the function.
pub open spec fn succ_missing(f: SemanticFunction, i: int, j: int) -> bool {
    0 <= j < block_succs(f.blocks@[i]).len() && !ids(f).contains(block_succs(f.blocks@[i])[j])
}

/// Block `i` is neither the entry nor reachable from it.
pub open spec fn unreachable_at(f: SemanticFunction, i: int) -> bool {
    ids(f)[i] != f.entry_block && !reachable(adj(f), f.entry_block, None, ids(f)[i])
}

/// The case targets of block `i`'s switch, if it ends in one.
pub open spec fn switch_targets(f: SemanticFunction, i: int) -> Seq<usize> {
    match f.blocks@[i].terminator {
        Some(Terminator::Switch { cases, .. }) => Seq::new(cases@.len(), |k: int| cases@[k].1),
        _ => Seq::empty(),
    }
}

/// The `j`-th case target of block `i`'s switch repeats an earlier one.
pub open spec fn switch_dup(f: SemanticFunction, i: int, j: int) -> bool {
    0 <= j < switch_targets(f, i).len() && exists|l: int| 0 <= l < j && switch_targets(f, i)[l] == switch_targets(f, i)[j]
}

/// Occurrences of `x` in `s`.
pub open spec fn occ(s: Seq<usize>, x: usize) -> nat
    decreases s.len(),
{
    if s.len() == 0 {
        0
    } else {
        occ(s.drop_last(), x) + if s.last() == x { 1nat } else { 0nat }
    }
}

/// The number of control-flow edges into `x` from the first `n` blocks.
pub open spec fn edges_into(f: SemanticFunction, x: usize, n: int) -> nat
    decreases n,
{
    if n <= 0 {
        0
    } else {
        edges_into(f, x, n - 1) + occ(block_succs(f.blocks@[n - 1]), x)
    }
}

/// The number of control-flow edges into `x`.
pub open spec fn in_degree(f: SemanticFunction, x: usize) -> nat {
    edges_into(f, x, f.blocks@.len() as int)
}

/// The branches and join of block `i`'s fork, if it ends in one.
pub open spec fn fork_of(f: SemanticFunction, i: int) -> Option<(Seq<usize>, usize)> {
    match f.blocks@[i].terminator {
        Some(Terminator::Fork { blocks, join_block }) => Some((blocks@, join_block)),
        _ => None,
    }
}

/// The block with id `id` (the first one).
pub open spec fn block_with(f: SemanticFunction, id: usize) -> SemanticBlock {
    f.blocks@[ids(f).index_of(id)]
}

/// Within branch `entry` of a fork joining at `join`, block `bid` is
/// another branch's entry, returns, or starts nested concurrency.
pub open spec fn branch_violation(f: SemanticFunction, branches: Seq<usize>, entry: usize, join: usize, bid: usize) -> bool {
    &&& reachable(adj(f), entry, Some(join), bid)
    &&& {
        ||| (bid != entry && branches.contains(bid))
        ||| block_with(f, bid).terminator matches Some(Terminator::Return { .. })
        ||| block_with(f, bid).terminator matches Some(Terminator::Spawn { .. })
        ||| block_with(f, bid).terminator matches Some(Terminator::Fork { .. })
    }
}

/// The `k`-th branch of the fork ending block `i` is badly shaped.
pub open spec fn branch_bad(f: SemanticFunction, i: int, k: int) -> bool {
    let (bs, join) = fork_of(f, i)->Some_0;
    exists|bid: usize| branch_violation(f, bs, bs[k], join, bid)
}

/// The fork ending block `i` (if any) is well shaped.
pub open spec fn fork_ok(f: SemanticFunction, i: int) -> bool {
    match fork_of(f, i) {
        None => true,
        Some((bs, join)) => {
            &&& forall|k: int| 0 <= k < bs.len() ==> in_degree(f, #[trigger] bs[k]) == 1
            &&& !bs.contains(join)
            &&& forall|k: int| 0 <= k < bs.len() ==> !#[trigger] branch_bad(f, i, k)
        },
    }
}

/// The function's control-flow graph is well formed.
pub open spec fn cfg_ok(f: SemanticFunction) -> bool {
    &&& f.blocks@.len() > 0
    &&& forall|i: int| 0 <= i < f.blocks@.len() ==> !#[trigger] dup_at(f, i)
    &&& ids(f).contains(f.entry_block)
    &&& !f.is_extern ==> forall|i: int| 0 <= i < f.blocks@.len() ==> (#[trigger] f.blocks@[i]).terminator is Some
    &&& forall|i: int, j: int| 0 <= i < f.blocks@.len() ==> !#[trigger] succ_missing(f, i, j)
    &&& forall|i: int| 0 <= i < f.blocks@.len() ==> !#[trigger] unreachable_at(f, i)
    &&& forall|i: int, j: int| 0 <= i < f.blocks@.len() ==> !#[trigger] switch_dup(f, i, j)
    &&& forall|i: int| 0 <= i < f.blocks@.len() ==> #[trigger] fork_ok(f, i)
}


// ─── The checks, stage by stage ─────────────────────────────────────

pub open spec fn stage_ids(f: SemanticFunction) -> bool {
    &&& f.blocks@.len() > 0
    &&& forall|i: int| 0 <= i < f.blocks@.len() ==> !#[trigger] dup_at(f, i)
    &&& ids(f).contains(f.entry_block)
}

pub open spec fn stage_terminators(f: SemanticFunction) -> bool {
    !f.is_extern ==> forall|i: int| 0 <= i < f.blocks@.len() ==> (#[trigger] f.blocks@[i]).terminator is Some
}

pub open spec fn stage_successors(f: SemanticFunction) -> bool {
    forall|i: int, j: int| 0 <= i < f.blocks@.len() ==> !#[trigger] succ_missing(f, i, j)
}

pub open spec fn stage_reachable(f: SemanticFunction) -> bool {
    forall|i: int| 0 <= i < f.blocks@.len() ==> !#[trigger] unreachable_at(f, i)
}

pub open spec fn stage_switches(f: SemanticFunction) -> bool {
    forall|i: int, j: int| 0 <= i < f.blocks@.len() ==> !#[trigger] switch_dup(f, i, j)
}

pub open spec fn stage_forks(f: SemanticFunction) -> bool {
    forall|i: int| 0 <= i < f.blocks@.len() ==> #[trigger] fork_ok(f, i)
}

/// Every stage before the fork-shape check passes.
pub open spec fn before_forks(f: SemanticFunction) -> bool {
    &&& stage_ids(f)
    &&& stage_terminators(f)
    &&& stage_successors(f)
    &&& stage_reachable(f)
    &&& stage_switches(f)
}

/// `e` reports the first defect of `f`, in the order the checks run:
/// ids, entry, terminators, successors, reachability, switch targets,
/// fork shapes; within a check, the first block (and the first
/// successor, case or branch) in order.
pub open spec fn reports(f: SemanticFunction, e: CfgError) -> bool {
    let n = f.blocks@.len();
    match e {
        CfgError::NoBlocks { function } => function@ == f.name@ && n == 0,
        CfgError::DuplicateBlockId { function, block } => {
            &&& function@ == f.name@
            &&& exists|i: int| 0 <= i < n && #[trigger] dup_at(f, i) && ids(f)[i] == block
                && forall|i2: int| 0 <= i2 < i ==> !#[trigger] dup_at(f, i2)
        },
        CfgError::EntryNotFound { function, entry } => {
            &&& function@ == f.name@ && entry == f.entry_block
            &&& n > 0 && (forall|i: int| 0 <= i < n ==> !#[trigger] dup_at(f, i))
            &&& !ids(f).contains(f.entry_block)
        },
        CfgError::MissingTerminator { function, block } => {
            &&& function@ == f.name@ && stage_ids(f) && !f.is_extern
            &&& exists|i: int| 0 <= i < n && (#[trigger] f.blocks@[i]).terminator is None && ids(f)[i] == block
                && forall|i2: int| 0 <= i2 < i ==> (#[trigger] f.blocks@[i2]).terminator is Some
        },
        CfgError::UnknownSuccessor { function, block, target } => {
            &&& function@ == f.name@ && stage_ids(f) && stage_terminators(f)
            &&& exists|i: int, j: int| 0 <= i < n && #[trigger] succ_missing(f, i, j) && ids(f)[i] == block
                && block_succs(f.blocks@[i])[j] == target
                && (forall|i2: int, j2: int| 0 <= i2 < i ==> !#[trigger] succ_missing(f, i2, j2))
                && (forall|j2: int| 0 <= j2 < j ==> !#[trigger] succ_missing(f, i, j2))
        },
        CfgError::UnreachableBlock { function, block } => {
            &&& function@ == f.name@ && stage_ids(f) && stage_terminators(f) && stage_successors(f)
            &&& exists|i: int| 0 <= i < n && #[trigger] unreachable_at(f, i) && ids(f)[i] == block
                && forall|i2: int| 0 <= i2 < i ==> !#[trigger] unreachable_at(f, i2)
        },
        CfgError::DuplicateSwitchTarget { function, block, target } => {
            &&& function@ == f.name@ && stage_ids(f) && stage_terminators(f) && stage_successors(f)
                && stage_reachable(f)
            &&& exists|i: int, j: int| 0 <= i < n && #[trigger] switch_dup(f, i, j) && ids(f)[i] == block
                && switch_targets(f, i)[j] == target
                && (forall|i2: int, j2: int| 0 <= i2 < i ==> !#[trigger] switch_dup(f, i2, j2))
                && (forall|j2: int| 0 <= j2 < j ==> !#[trigger] switch_dup(f, i, j2))
        },
        CfgError::ForkBranchPredecessors { function, fork, branch, count } => {
            &&& function@ == f.name@ && before_forks(f)
            &&& exists|i: int| 0 <= i < n && #[trigger] fork_of(f, i) is Some && ids(f)[i] == fork
                && (forall|i2: int| 0 <= i2 < i ==> #[trigger] fork_ok(f, i2))
                && exists|k: int| 0 <= k < fork_of(f, i)->Some_0.0.len()
                    && #[trigger] fork_of(f, i)->Some_0.0[k] == branch
                    && in_degree(f, branch) != 1
                    && count == (if in_degree(f, branch) <= usize::MAX { in_degree(f, branch) } else { usize::MAX as nat })
                    && forall|k2: int| 0 <= k2 < k ==> in_degree(f, #[trigger] fork_of(f, i)->Some_0.0[k2]) == 1
        },
        CfgError::ForkJoinIsBranch { function, fork, join } => {
            &&& function@ == f.name@ && before_forks(f)
            &&& exists|i: int| 0 <= i < n && #[trigger] fork_of(f, i) is Some && ids(f)[i] == fork
                && (forall|i2: int| 0 <= i2 < i ==> #[trigger] fork_ok(f, i2))
                && fork_of(f, i)->Some_0.1 == join
                && (forall|k: int| 0 <= k < fork_of(f, i)->Some_0.0.len() ==> in_degree(f, #[trigger] fork_of(f, i)->Some_0.0[k]) == 1)
                && fork_of(f, i)->Some_0.0.contains(join)
        },
        CfgError::ForkBranchReachesBranch { function, fork, branch, other } =>
            function@ == f.name@ && before_forks(f) && fork_branch_fails(f, fork, branch)
                && other != branch && reachable(adj(f), branch, Some(fork_join_at(f, fork)), other)
                && fork_branches_at(f, fork).contains(other),
        CfgError::ForkBranchReturns { function, fork, branch } =>
            function@ == f.name@ && before_forks(f) && fork_branch_fails(f, fork, branch)
                && exists|bid: usize| reachable(adj(f), branch, Some(fork_join_at(f, fork)), bid)
                    && block_with(f, bid).terminator matches Some(Terminator::Return { .. }),
        CfgError::ForkNestedConcurrency { function, fork, branch } =>
            function@ == f.name@ && before_forks(f) && fork_branch_fails(f, fork, branch)
                && exists|bid: usize| reachable(adj(f), branch, Some(fork_join_at(f, fork)), bid)
                    && (block_with(f, bid).terminator matches Some(Terminator::Spawn { .. })
                        || block_with(f, bid).terminator matches Some(Terminator::Fork { .. })),
        CfgError::DuplicateFunction { .. } => false,
    }
}

/// The branches of the fork ending the block with id `fork`.
pub open spec fn fork_branches_at(f: SemanticFunction, fork: usize) -> Seq<usize> {
    fork_of(f, ids(f).index_of(fork))->Some_0.0
}

/// The join of the fork ending the block with id `fork`.
pub open spec fn fork_join_at(f: SemanticFunction, fork: usize) -> usize {
    fork_of(f, ids(f).index_of(fork))->Some_0.1
}

/// The block with id `fork` ends in the first ill-shaped fork, whose
/// branches all have the fork as single predecessor and do not include
/// the join, and `branch` is its first ill-shaped branch.
pub open spec fn fork_branch_fails(f: SemanticFunction, fork: usize, branch: usize) -> bool {
    exists|i: int| 0 <= i < f.blocks@.len() && #[trigger] fork_of(f, i) is Some && ids(f)[i] == fork
        && (forall|i2: int| 0 <= i2 < i ==> #[trigger] fork_ok(f, i2))
        && (forall|k: int| 0 <= k < fork_of(f, i)->Some_0.0.len() ==> in_degree(f, #[trigger] fork_of(f, i)->Some_0.0[k]) == 1)
        && !fork_of(f, i)->Some_0.0.contains(fork_of(f, i)->Some_0.1)
        && exists|k: int| 0 <= k < fork_of(f, i)->Some_0.0.len() && #[trigger] fork_of(f, i)->Some_0.0[k] == branch
            && branch_bad(f, i, k)
            && forall|k2: int| 0 <= k2 < k ==> !#[trigger] branch_bad(f, i, k2)
}


// ─── The checks, in executable form ─────────────────────────────────

/// The structural checker of control-flow graphs.
pub struct CFGVerifier;

/// The block ids of `func`, in block order, once checked to be distinct
/// and to include the entry.
fn check_ids(func: &SemanticFunction) -> (r: Result<Vec<usize>, CfgError>)
    ensures
        match r {
            Ok(v) => v@ == ids(*func) && stage_ids(*func),
            Err(e) => !stage_ids(*func) && reports(*func, e),
        },
{
    if func.blocks.len() == 0 {
        return Err(CfgError::NoBlocks { function: func.name.clone() });
    }
    let mut seen: Vec<usize> = Vec::new();
    let mut i: usize = 0;
    while i < func.blocks.len()
        invariant
            0 <= i <= func.blocks@.len(),
            seen@ == ids(*func).take(i as int),
            forall|i2: int| 0 <= i2 < i ==> !#[trigger] dup_at(*func, i2),
        decreases func.blocks@.len() - i,
    {
        let id = func.blocks[i].id;
        if contains(&seen, id) {
            proof {
                let j = choose|j: int| 0 <= j < seen@.len() && seen@[j] == id;
                assert(ids(*func)[j] == ids(*func)[i as int]);
                assert(dup_at(*func, i as int));
            }
            return Err(CfgError::DuplicateBlockId { function: func.name.clone(), block: id });
        }
        proof {
            assert forall|j: int| 0 <= j < i implies ids(*func)[j] != ids(*func)[i as int] by {
                assert(seen@[j] == ids(*func)[j]);
            }
            assert(!dup_at(*func, i as int));
        }
        seen.push(id);
        i = i + 1;
        assert(seen@ =~= ids(*func).take(i as int));
    }
    assert(seen@ =~= ids(*func));
    if !contains(&seen, func.entry_block) {
        return Err(CfgError::EntryNotFound { function: func.name.clone(), entry: func.entry_block });
    }
    Ok(seen)
}


/// Every block has a terminator, unless the function is extern.
fn check_terminators(func: &SemanticFunction) -> (r: Result<(), CfgError>)
    requires
        stage_ids(*func),
    ensures
        r is Ok <==> stage_terminators(*func),
        r matches Err(e) ==> reports(*func, e),
{
    if func.is_extern {
        return Ok(());
    }
    let mut i: usize = 0;
    while i < func.blocks.len()
        invariant
            0 <= i <= func.blocks@.len(),
            !func.is_extern,
            stage_ids(*func),
            forall|i2: int| 0 <= i2 < i ==> (#[trigger] func.blocks@[i2]).terminator is Some,
        decreases func.blocks@.len() - i,
    {
        if func.blocks[i].terminator.is_none() {
            assert(func.blocks@[i as int].terminator is None);
            return Err(CfgError::MissingTerminator { function: func.name.clone(), block: func.blocks[i].id });
        }
        i = i + 1;
    }
    Ok(())
}

/// Every successor of every block is a block of the function.
fn check_successors(func: &SemanticFunction, block_ids: &Vec<usize>) -> (r: Result<(), CfgError>)
    requires
        stage_ids(*func),
        stage_terminators(*func),
        block_ids@ == ids(*func),
    ensures
        r is Ok <==> stage_successors(*func),
        r matches Err(e) ==> reports(*func, e),
{
    let mut i: usize = 0;
    while i < func.blocks.len()
        invariant
            0 <= i <= func.blocks@.len(),
            block_ids@ == ids(*func),
            stage_ids(*func),
            stage_terminators(*func),
            forall|i2: int, j2: int| 0 <= i2 < i ==> !#[trigger] succ_missing(*func, i2, j2),
        decreases func.blocks@.len() - i,
    {
        let succs = func.blocks[i].successors();
        let mut j: usize = 0;
        while j < succs.len()
            invariant
                0 <= i < func.blocks@.len(),
                0 <= j <= succs@.len(),
                succs@ == block_succs(func.blocks@[i as int]),
                block_ids@ == ids(*func),
                stage_ids(*func),
                stage_terminators(*func),
                forall|i2: int, j2: int| 0 <= i2 < i ==> !#[trigger] succ_missing(*func, i2, j2),
                forall|j2: int| 0 <= j2 < j ==> !#[trigger] succ_missing(*func, i as int, j2),
            decreases succs@.len() - j,
        {
            if !contains(block_ids, succs[j]) {
                assert(succ_missing(*func, i as int, j as int));
                return Err(CfgError::UnknownSuccessor { function: func.name.clone(), block: func.blocks[i].id, target: succs[j] });
            }
            j = j + 1;
        }
        proof {
            assert forall|j2: int| !#[trigger] succ_missing(*func, i as int, j2) by {
                if 0 <= j2 < succs@.len() {
                } 
            }
        }
        i = i + 1;
    }
    Ok(())
}

/// The adjacency of the function's blocks, in executable form.
fn adjacency(func: &SemanticFunction) -> (r: Vec<(usize, Vec<usize>)>)
    ensures
        adj_model(r@) == adj(*func),
{
    let mut out: Vec<(usize, Vec<usize>)> = Vec::new();
    let mut i: usize = 0;
    while i < func.blocks.len()
        invariant
            0 <= i <= func.blocks@.len(),
            out@.len() == i,
            adj_model(out@) == adj(*func).take(i as int),
        decreases func.blocks@.len() - i,
    {
        let succs = func.blocks[i].successors();
        let ghost sm = succs@;
        out.push((func.blocks[i].id, succs));
        assert(out@[i as int].1@ == sm);
        i = i + 1;
        assert(adj_model(out@) =~= adj(*func).take(i as int));
    }
    assert(adj(*func).take(func.blocks@.len() as int) =~= adj(*func));
    out
}

/// Every block is the entry or reachable from it.
fn check_reachable(func: &SemanticFunction, graph: &Vec<(usize, Vec<usize>)>) -> (r: Result<(), CfgError>)
    requires
        stage_ids(*func),
        stage_terminators(*func),
        stage_successors(*func),
        adj_model(graph@) == adj(*func),
    ensures
        r is Ok <==> stage_reachable(*func),
        r matches Err(e) ==> reports(*func, e),
{
    let seen = reachable_from(graph, func.entry_block, None);
    let mut i: usize = 0;
    while i < func.blocks.len()
        invariant
            0 <= i <= func.blocks@.len(),
            adj_model(graph@) == adj(*func),
            stage_ids(*func),
            stage_terminators(*func),
            stage_successors(*func),
            forall|x: usize| seen@.contains(x) <==> reachable(adj(*func), func.entry_block, None, x),
            forall|i2: int| 0 <= i2 < i ==> !#[trigger] unreachable_at(*func, i2),
        decreases func.blocks@.len() - i,
    {
        let id = func.blocks[i].id;
        assert(ids(*func)[i as int] == id);
        if id != func.entry_block && !contains(&seen, id) {
            assert(unreachable_at(*func, i as int));
            return Err(CfgError::UnreachableBlock { function: func.name.clone(), block: id });
        }
        i = i + 1;
    }
    Ok(())
}

/// No switch names the same case target twice.
fn check_switches(func: &SemanticFunction) -> (r: Result<(), CfgError>)
    requires
        stage_ids(*func),
        stage_terminators(*func),
        stage_successors(*func),
        stage_reachable(*func),
    ensures
        r is Ok <==> stage_switches(*func),
        r matches Err(e) ==> reports(*func, e),
{
    let mut i: usize = 0;
    while i < func.blocks.len()
        invariant
            0 <= i <= func.blocks@.len(),
            stage_ids(*func),
            stage_terminators(*func),
            stage_successors(*func),
            stage_reachable(*func),
            forall|i2: int, j2: int| 0 <= i2 < i ==> !#[trigger] switch_dup(*func, i2, j2),
        decreases func.blocks@.len() - i,
    {
        if let Some(Terminator::Switch { cases, .. }) = &func.blocks[i].terminator {
            assert(switch_targets(*func, i as int) == Seq::new(cases@.len(), |k: int| cases@[k].1));
            let mut seen: Vec<usize> = Vec::new();
            let mut j: usize = 0;
            while j < cases.len()
                invariant
                    0 <= i < func.blocks@.len(),
                    0 <= j <= cases@.len(),
                    stage_ids(*func),
                    stage_terminators(*func),
                    stage_successors(*func),
                    stage_reachable(*func),
                    switch_targets(*func, i as int) == Seq::new(cases@.len(), |k: int| cases@[k].1),
                    seen@ == switch_targets(*func, i as int).take(j as int),
                    forall|i2: int, j2: int| 0 <= i2 < i ==> !#[trigger] switch_dup(*func, i2, j2),
                    forall|j2: int| 0 <= j2 < j ==> !#[trigger] switch_dup(*func, i as int, j2),
                decreases cases@.len() - j,
            {
                let target = cases[j].1;
                assert(switch_targets(*func, i as int)[j as int] == target);
                if contains(&seen, target) {
                    proof {
                        let l = choose|l: int| 0 <= l < seen@.len() && seen@[l] == target;
                        assert(switch_targets(*func, i as int)[l] == target);
                        assert(switch_dup(*func, i as int, j as int));
                    }
                    return Err(CfgError::DuplicateSwitchTarget { function: func.name.clone(), block: func.blocks[i].id, target });
                }
                proof {
                    assert forall|l: int| 0 <= l < j implies switch_targets(*func, i as int)[l] != target by {
                        assert(seen@[l] == switch_targets(*func, i as int)[l]);
                    }
                    assert(!switch_dup(*func, i as int, j as int));
                }
                seen.push(target);
                j = j + 1;
                assert(seen@ =~= switch_targets(*func, i as int).take(j as int));
            }
            proof {
                assert forall|j2: int| !#[trigger] switch_dup(*func, i as int, j2) by {
                    if 0 <= j2 < cases@.len() {
                    }
                }
            }
        } else {
            assert(switch_targets(*func, i as int).len() == 0);
        }
        i = i + 1;
    }
    Ok(())
}


/// With distinct ids, the block with the id of block `i` is block `i`.
proof fn lemma_index_of_id(f: SemanticFunction, i: int)
    requires
        stage_ids(f),
        0 <= i < f.blocks@.len(),
    ensures
        ids(f).index_of(ids(f)[i]) == i,
        block_with(f, ids(f)[i]) == f.blocks@[i],
{
    let id = ids(f)[i];
    assert(ids(f)[i] == id);
    let k = ids(f).index_of(id);
    assert(0 <= k < ids(f).len() && ids(f)[k] == id);
    if k < i {
        assert(dup_at(f, i));
    } else if i < k {
        assert(dup_at(f, k));
    }
}

/// The successors of block `i` are ids of the function, once checked.
proof fn lemma_succ_in_ids(f: SemanticFunction, i: int, j: int)
    requires
        stage_successors(f),
        0 <= i < f.blocks@.len(),
        0 <= j < block_succs(f.blocks@[i]).len(),
    ensures
        ids(f).contains(block_succs(f.blocks@[i])[j]),
{
    assert(!succ_missing(f, i, j));
}

/// What is reachable from a block of the function is a block of it, once
/// every successor is checked to be one.
proof fn lemma_reach_in_ids(f: SemanticFunction, start: usize, avoid: Option<usize>, x: usize)
    requires
        stage_successors(f),
        ids(f).contains(start),
        reachable(adj(f), start, avoid, x),
    ensures
        ids(f).contains(x),
{
    let v = ids(f).to_set();
    assert forall|b: usize, s: usize| v.contains(b) && #[trigger] adj_succs(adj(f), b).contains(s) && avoid != Some(s) implies v.contains(s) by {
        lemma_adj_succs(adj(f), b, s);
        let i = choose|i: int| 0 <= i < adj(f).len() && adj(f)[i].0 == b && (#[trigger] adj(f)[i].1).contains(s);
        let j = choose|j: int| 0 <= j < adj(f)[i].1.len() && adj(f)[i].1[j] == s;
        lemma_succ_in_ids(f, i, j);
    }
    let n = choose|n: nat| #[trigger] reach(adj(f), start, avoid, n).contains(x);
    lemma_reach_in_closed(adj(f), start, avoid, v, n);
}

/// The index of the block with id `id`.
fn find_block(func: &SemanticFunction, id: usize) -> (r: usize)
    requires
        stage_ids(*func),
        ids(*func).contains(id),
    ensures
        r < func.blocks@.len(),
        ids(*func)[r as int] == id,
        block_with(*func, id) == func.blocks@[r as int],
{
    let mut i: usize = 0;
    while i < func.blocks.len()
        invariant
            0 <= i <= func.blocks@.len(),
            stage_ids(*func),
            ids(*func).contains(id),
            forall|i2: int| 0 <= i2 < i ==> ids(*func)[i2] != id,
        decreases func.blocks@.len() - i,
    {
        assert(ids(*func)[i as int] == func.blocks@[i as int].id);
        if func.blocks[i].id == id {
            proof { lemma_index_of_id(*func, i as int); }
            return i;
        }
        i = i + 1;
    }
    proof {
        let k = choose|k: int| 0 <= k < ids(*func).len() && ids(*func)[k] == id;
        assert(ids(*func)[k] != id);
    }
    0
}

/// The number of control-flow edges into `x`, capped at `usize::MAX`.
fn in_degree_of(func: &SemanticFunction, x: usize) -> (r: usize)
    ensures
        r == (if in_degree(*func, x) <= usize::MAX { in_degree(*func, x) } else { usize::MAX as nat }),
{
    let mut count: usize = 0;
    let mut i: usize = 0;
    while i < func.blocks.len()
        invariant
            0 <= i <= func.blocks@.len(),
            count == (if edges_into(*func, x, i as int) <= usize::MAX { edges_into(*func, x, i as int) } else { usize::MAX as nat }),
        decreases func.blocks@.len() - i,
    {
        let succs = func.blocks[i].successors();
        let mut j: usize = 0;
        assert(succs@.take(0) =~= Seq::<usize>::empty());
        while j < succs.len()
            invariant
                0 <= i < func.blocks@.len(),
                0 <= j <= succs@.len(),
                succs@ == block_succs(func.blocks@[i as int]),
                count == (if edges_into(*func, x, i as int) + occ(succs@.take(j as int), x) <= usize::MAX {
                    edges_into(*func, x, i as int) + occ(succs@.take(j as int), x)
                } else {
                    usize::MAX as nat
                }),
            decreases succs@.len() - j,
        {
            assert(succs@.take(j + 1).drop_last() =~= succs@.take(j as int));
            if succs[j] == x && count < usize::MAX {
                count = count + 1;
            }
            j = j + 1;
        }
        assert(succs@.take(succs@.len() as int) =~= succs@);
        i = i + 1;
    }
    count
}

proof fn lemma_branch_bad(f: SemanticFunction, i: int, k: int, bid: usize)
    requires
        fork_of(f, i) is Some,
        branch_violation(f, fork_of(f, i)->Some_0.0, fork_of(f, i)->Some_0.0[k], fork_of(f, i)->Some_0.1, bid),
    ensures
        branch_bad(f, i, k),
{
}

#[verifier::spinoff_prover]
/// Whether the `k`-th branch of the fork ending block `i` is badly shaped:
/// one of the defects it shows, or none.
fn check_branch(func: &SemanticFunction, graph: &Vec<(usize, Vec<usize>)>, i: usize, branches: &Vec<usize>, join: usize, k: usize) -> (r: Option<CfgError>)
    requires
        before_forks(*func),
        adj_model(graph@) == adj(*func),
        i < func.blocks@.len(),
        fork_of(*func, i as int) == Some((branches@, join)),
        k < branches@.len(),
    ensures
        r is None <==> !branch_bad(*func, i as int, k as int),
        r matches Some(e) ==> match e {
            CfgError::ForkBranchReachesBranch { function, fork, branch, other } =>
                function@ == func.name@ && fork == ids(*func)[i as int] && branch == branches@[k as int]
                    && other != branch && reachable(adj(*func), branch, Some(join), other)
                    && branches@.contains(other),
            CfgError::ForkBranchReturns { function, fork, branch } =>
                function@ == func.name@ && fork == ids(*func)[i as int] && branch == branches@[k as int]
                    && exists|bid: usize| reachable(adj(*func), branch, Some(join), bid)
                        && block_with(*func, bid).terminator matches Some(Terminator::Return { .. }),
            CfgError::ForkNestedConcurrency { function, fork, branch } =>
                function@ == func.name@ && fork == ids(*func)[i as int] && branch == branches@[k as int]
                    && exists|bid: usize| reachable(adj(*func), branch, Some(join), bid)
                        && (block_with(*func, bid).terminator matches Some(Terminator::Spawn { .. })
                            || block_with(*func, bid).terminator matches Some(Terminator::Fork { .. })),
            _ => false,
        },
{
    let entry = branches[k];
    proof {
        assert(block_succs(func.blocks@[i as int]) == branches@);
        lemma_succ_in_ids(*func, i as int, k as int);
    }
    let seen = reachable_from(graph, entry, Some(join));
    let mut t: usize = 0;
    while t < seen.len()
        invariant
            0 <= t <= seen@.len(),
            before_forks(*func),
            adj_model(graph@) == adj(*func),
            i < func.blocks@.len(),
            k < branches@.len(),
            entry == branches@[k as int],
            ids(*func).contains(entry),
            fork_of(*func, i as int) == Some((branches@, join)),
            forall|x: usize| seen@.contains(x) <==> reachable(adj(*func), entry, Some(join), x),
            forall|t2: int| 0 <= t2 < t ==> !branch_violation(*func, branches@, entry, join, #[trigger] seen@[t2]),
        decreases seen@.len() - t,
    {
        let bid = seen[t];
        assert(seen@.contains(bid));
        if bid != entry && contains(branches, bid) {
            proof { lemma_branch_bad(*func, i as int, k as int, bid); }
            return Some(CfgError::ForkBranchReachesBranch { function: func.name.clone(), fork: func.blocks[i].id, branch: entry, other: bid });
        }
        proof { lemma_reach_in_ids(*func, entry, Some(join), bid); }
        let at = find_block(func, bid);
        let ghost bad = branch_violation(*func, branches@, entry, join, bid);
        assert(reachable(adj(*func), entry, Some(join), bid));
        assert(block_with(*func, bid) == func.blocks@[at as int]);
        match &func.blocks[at].terminator {
            Some(Terminator::Return { .. }) => {
                assert(bad);
                proof { lemma_branch_bad(*func, i as int, k as int, bid); }
                assert(exists|b: usize| reachable(adj(*func), entry, Some(join), b)
                    && block_with(*func, b).terminator matches Some(Terminator::Return { .. }));
                let e = CfgError::ForkBranchReturns { function: func.name.clone(), fork: func.blocks[i].id, branch: entry };
                assert(e->ForkBranchReturns_function@ == func.name@);
                assert(e->ForkBranchReturns_fork == ids(*func)[i as int]);
                assert(e->ForkBranchReturns_branch == branches@[k as int]);
                return Some(e);
            },
            Some(Terminator::Spawn { .. }) => {
                assert(bad);
                proof { lemma_branch_bad(*func, i as int, k as int, bid); }
                assert(exists|b: usize| reachable(adj(*func), entry, Some(join), b)
                    && (block_with(*func, b).terminator matches Some(Terminator::Spawn { .. })
                        || block_with(*func, b).terminator matches Some(Terminator::Fork { .. })));
                let e = CfgError::ForkNestedConcurrency { function: func.name.clone(), fork: func.blocks[i].id, branch: entry };
                assert(e->ForkNestedConcurrency_function@ == func.name@);
                assert(e->ForkNestedConcurrency_fork == ids(*func)[i as int]);
                assert(e->ForkNestedConcurrency_branch == branches@[k as int]);
                return Some(e);
            },
            Some(Terminator::Fork { .. }) => {
                assert(bad);
                proof { lemma_branch_bad(*func, i as int, k as int, bid); }
                assert(exists|b: usize| reachable(adj(*func), entry, Some(join), b)
                    && (block_with(*func, b).terminator matches Some(Terminator::Spawn { .. })
                        || block_with(*func, b).terminator matches Some(Terminator::Fork { .. })));
                let e = CfgError::ForkNestedConcurrency { function: func.name.clone(), fork: func.blocks[i].id, branch: entry };
                assert(e->ForkNestedConcurrency_function@ == func.name@);
                assert(e->ForkNestedConcurrency_fork == ids(*func)[i as int]);
                assert(e->ForkNestedConcurrency_branch == branches@[k as int]);
                return Some(e);
            },
            _ => {
                assert(!bad);
            },
        }
        t = t + 1;
    }
    proof {
        assert forall|bid: usize| !branch_violation(*func, branches@, entry, join, bid) by {
            if reachable(adj(*func), entry, Some(join), bid) {
                assert(seen@.contains(bid));
                let t2 = choose|t2: int| 0 <= t2 < seen@.len() && seen@[t2] == bid;
                assert(!branch_violation(*func, branches@, entry, join, seen@[t2]));
            }
        }
    }
    None
}


/// The fork ending block `i`, if any, is well shaped; every earlier one is.
#[verifier::spinoff_prover]
fn check_fork(func: &SemanticFunction, graph: &Vec<(usize, Vec<usize>)>, i: usize) -> (r: Result<(), CfgError>)
    requires
        before_forks(*func),
        adj_model(graph@) == adj(*func),
        i < func.blocks@.len(),
        forall|i2: int| 0 <= i2 < i ==> #[trigger] fork_ok(*func, i2),
    ensures
        r is Ok <==> fork_ok(*func, i as int),
        r matches Err(e) ==> reports(*func, e),
{
    let (branches, join) = match &func.blocks[i].terminator {
        Some(Terminator::Fork { blocks, join_block }) => (blocks, *join_block),
        _ => {
            return Ok(());
        },
    };
    assert(fork_of(*func, i as int) == Some((branches@, join)));
    proof { lemma_index_of_id(*func, i as int); }
    let mut k: usize = 0;
    while k < branches.len()
        invariant
            0 <= k <= branches@.len(),
            before_forks(*func),
            i < func.blocks@.len(),
            fork_of(*func, i as int) == Some((branches@, join)),
            forall|i2: int| 0 <= i2 < i ==> #[trigger] fork_ok(*func, i2),
            forall|k2: int| 0 <= k2 < k ==> in_degree(*func, #[trigger] branches@[k2]) == 1,
        decreases branches@.len() - k,
    {
        let count = in_degree_of(func, branches[k]);
        if count != 1 {
            assert(fork_of(*func, i as int)->Some_0.0[k as int] == branches@[k as int]);
            return Err(CfgError::ForkBranchPredecessors { function: func.name.clone(), fork: func.blocks[i].id, branch: branches[k], count });
        }
        k = k + 1;
    }
    if contains(branches, join) {
        return Err(CfgError::ForkJoinIsBranch { function: func.name.clone(), fork: func.blocks[i].id, join });
    }
    let mut k: usize = 0;
    while k < branches.len()
        invariant
            0 <= k <= branches@.len(),
            before_forks(*func),
            adj_model(graph@) == adj(*func),
            i < func.blocks@.len(),
            fork_of(*func, i as int) == Some((branches@, join)),
            ids(*func).index_of(ids(*func)[i as int]) == i,
            !branches@.contains(join),
            forall|i2: int| 0 <= i2 < i ==> #[trigger] fork_ok(*func, i2),
            forall|k2: int| 0 <= k2 < branches@.len() ==> in_degree(*func, #[trigger] branches@[k2]) == 1,
            forall|k2: int| 0 <= k2 < k ==> !#[trigger] branch_bad(*func, i as int, k2),
        decreases branches@.len() - k,
    {
        match check_branch(func, graph, i, branches, join, k) {
            Some(e) => {
                proof {
                    let fork = ids(*func)[i as int];
                    assert(fork_branches_at(*func, fork) == branches@);
                    assert(fork_join_at(*func, fork) == join);
                    assert(fork_of(*func, i as int)->Some_0.0[k as int] == branches@[k as int]);
                    assert(fork_branch_fails(*func, fork, branches@[k as int]));
                }
                return Err(e);
            },
            None => {},
        }
        k = k + 1;
    }
    Ok(())
}

/// Every fork is well shaped.
fn check_forks(func: &SemanticFunction, graph: &Vec<(usize, Vec<usize>)>) -> (r: Result<(), CfgError>)
    requires
        before_forks(*func),
        adj_model(graph@) == adj(*func),
    ensures
        r is Ok <==> stage_forks(*func),
        r matches Err(e) ==> reports(*func, e),
{
    let mut i: usize = 0;
    while i < func.blocks.len()
        invariant
            0 <= i <= func.blocks@.len(),
            before_forks(*func),
            adj_model(graph@) == adj(*func),
            forall|i2: int| 0 <= i2 < i ==> #[trigger] fork_ok(*func, i2),
        decreases func.blocks@.len() - i,
    {
        match check_fork(func, graph, i) {
            Ok(()) => {},
            Err(e) => {
                return Err(e);
            },
        }
        i = i + 1;
    }
    Ok(())
}

/// Every stage that reports an error shows the graph ill formed.
proof fn lemma_reports_not_ok(f: SemanticFunction, e: CfgError)
    requires
        reports(f, e),
    ensures
        !cfg_ok(f),
{
    match e {
        CfgError::ForkBranchReachesBranch { fork, branch, .. } => {
            let i = choose|i: int| 0 <= i < f.blocks@.len() && #[trigger] fork_of(f, i) is Some && ids(f)[i] == fork
                && (forall|i2: int| 0 <= i2 < i ==> #[trigger] fork_ok(f, i2))
                && (forall|k: int| 0 <= k < fork_of(f, i)->Some_0.0.len() ==> in_degree(f, #[trigger] fork_of(f, i)->Some_0.0[k]) == 1)
                && !fork_of(f, i)->Some_0.0.contains(fork_of(f, i)->Some_0.1)
                && exists|k: int| 0 <= k < fork_of(f, i)->Some_0.0.len() && #[trigger] fork_of(f, i)->Some_0.0[k] == branch
                    && branch_bad(f, i, k)
                    && forall|k2: int| 0 <= k2 < k ==> !#[trigger] branch_bad(f, i, k2);
            assert(!fork_ok(f, i));
        },
        CfgError::ForkBranchReturns { fork, branch, .. } => {
            let i = choose|i: int| 0 <= i < f.blocks@.len() && #[trigger] fork_of(f, i) is Some && ids(f)[i] == fork
                && (forall|i2: int| 0 <= i2 < i ==> #[trigger] fork_ok(f, i2))
                && (forall|k: int| 0 <= k < fork_of(f, i)->Some_0.0.len() ==> in_degree(f, #[trigger] fork_of(f, i)->Some_0.0[k]) == 1)
                && !fork_of(f, i)->Some_0.0.contains(fork_of(f, i)->Some_0.1)
                && exists|k: int| 0 <= k < fork_of(f, i)->Some_0.0.len() && #[trigger] fork_of(f, i)->Some_0.0[k] == branch
                    && branch_bad(f, i, k)
                    && forall|k2: int| 0 <= k2 < k ==> !#[trigger] branch_bad(f, i, k2);
            assert(!fork_ok(f, i));
        },
        CfgError::ForkNestedConcurrency { fork, branch, .. } => {
            let i = choose|i: int| 0 <= i < f.blocks@.len() && #[trigger] fork_of(f, i) is Some && ids(f)[i] == fork
                && (forall|i2: int| 0 <= i2 < i ==> #[trigger] fork_ok(f, i2))
                && (forall|k: int| 0 <= k < fork_of(f, i)->Some_0.0.len() ==> in_degree(f, #[trigger] fork_of(f, i)->Some_0.0[k]) == 1)
                && !fork_of(f, i)->Some_0.0.contains(fork_of(f, i)->Some_0.1)
                && exists|k: int| 0 <= k < fork_of(f, i)->Some_0.0.len() && #[trigger] fork_of(f, i)->Some_0.0[k] == branch
                    && branch_bad(f, i, k)
                    && forall|k2: int| 0 <= k2 < k ==> !#[trigger] branch_bad(f, i, k2);
            assert(!fork_ok(f, i));
        },
        CfgError::ForkBranchPredecessors { fork, .. } => {
            let i = choose|i: int| 0 <= i < f.blocks@.len() && #[trigger] fork_of(f, i) is Some && ids(f)[i] == fork
                && (forall|i2: int| 0 <= i2 < i ==> #[trigger] fork_ok(f, i2))
                && exists|k: int| 0 <= k < fork_of(f, i)->Some_0.0.len()
                    && in_degree(f, #[trigger] fork_of(f, i)->Some_0.0[k]) != 1;
            assert(!fork_ok(f, i));
        },
        CfgError::ForkJoinIsBranch { fork, .. } => {
            let i = choose|i: int| 0 <= i < f.blocks@.len() && #[trigger] fork_of(f, i) is Some && ids(f)[i] == fork
                && fork_of(f, i)->Some_0.0.contains(fork_of(f, i)->Some_0.1);
            assert(!fork_ok(f, i));
        },
        _ => {},
    }
}

impl CFGVerifier {
    /// Checks the control-flow graph of one function: `Ok` exactly when it
    /// is well formed, else the first defect found.
    pub fn verify_function(func: &SemanticFunction) -> (r: Result<(), CfgError>)
        ensures
            r is Ok <==> cfg_ok(*func),
            r matches Err(e) ==> reports(*func, e),
    {
        let r = Self::run_checks(func);
        proof {
            if r is Err {
                lemma_reports_not_ok(*func, r->Err_0);
            }
        }
        r
    }

    fn run_checks(func: &SemanticFunction) -> (r: Result<(), CfgError>)
        ensures
            r is Ok ==> cfg_ok(*func),
            r matches Err(e) ==> reports(*func, e),
    {
        let block_ids = match check_ids(func) {
            Ok(v) => v,
            Err(e) => {
                return Err(e);
            },
        };
        match check_terminators(func) {
            Ok(()) => {},
            Err(e) => {
                return Err(e);
            },
        }
        match check_successors(func, &block_ids) {
            Ok(()) => {},
            Err(e) => {
                return Err(e);
            },
        }
        let graph = adjacency(func);
        match check_reachable(func, &graph) {
            Ok(()) => {},
            Err(e) => {
                return Err(e);
            },
        }
        match check_switches(func) {
            Ok(()) => {},
            Err(e) => {
                return Err(e);
            },
        }
        check_forks(func, &graph)
    }
}


/// Function `i` repeats the name of an earlier function.
pub open spec fn name_dup_at(p: SemanticProgram, i: int) -> bool {
    exists|j: int| 0 <= j < i && p.functions@[j].name@ == p.functions@[i].name@
}

/// Every function's graph is well formed and no two functions share a name.
pub open spec fn program_ok(p: SemanticProgram) -> bool {
    &&& forall|i: int| 0 <= i < p.functions@.len() ==> cfg_ok(#[trigger] p.functions@[i])
    &&& forall|i: int| 0 <= i < p.functions@.len() ==> !#[trigger] name_dup_at(p, i)
}

/// `e` is the first defect of `p`: that of the first ill-formed function,
/// or, when all are well formed, the first repeated name.
pub open spec fn program_reports(p: SemanticProgram, e: CfgError) -> bool {
    let n = p.functions@.len();
    match e {
        CfgError::DuplicateFunction { function } => {
            &&& forall|i: int| 0 <= i < n ==> cfg_ok(#[trigger] p.functions@[i])
            &&& exists|i: int| 0 <= i < n && #[trigger] name_dup_at(p, i) && function@ == p.functions@[i].name@
                && forall|i2: int| 0 <= i2 < i ==> !#[trigger] name_dup_at(p, i2)
        },
        _ => exists|i: int| 0 <= i < n && !cfg_ok(#[trigger] p.functions@[i]) && reports(p.functions@[i], e)
            && forall|i2: int| 0 <= i2 < i ==> cfg_ok(#[trigger] p.functions@[i2]),
    }
}

impl CFGVerifier {
    /// Checks every function's graph, then that function names are
    /// distinct: `Ok` exactly when the program is well formed, else its
    /// first defect.
    pub fn verify(program: &SemanticProgram) -> (r: Result<(), CfgError>)
        ensures
            r is Ok <==> program_ok(*program),
            r matches Err(e) ==> program_reports(*program, e),
    {
        let mut i: usize = 0;
        while i < program.functions.len()
            invariant
                0 <= i <= program.functions@.len(),
                forall|i2: int| 0 <= i2 < i ==> cfg_ok(#[trigger] program.functions@[i2]),
            decreases program.functions@.len() - i,
        {
            match Self::verify_function(&program.functions[i]) {
                Ok(()) => {},
                Err(e) => {
                    assert(!cfg_ok(program.functions@[i as int]));
                    return Err(e);
                },
            }
            i = i + 1;
        }
        let mut i: usize = 0;
        while i < program.functions.len()
            invariant
                0 <= i <= program.functions@.len(),
                forall|i2: int| 0 <= i2 < program.functions@.len() ==> cfg_ok(#[trigger] program.functions@[i2]),
                forall|i2: int| 0 <= i2 < i ==> !#[trigger] name_dup_at(*program, i2),
            decreases program.functions@.len() - i,
        {
            let mut j: usize = 0;
            while j < i
                invariant
                    0 <= j <= i < program.functions@.len(),
                    forall|i2: int| 0 <= i2 < program.functions@.len() ==> cfg_ok(#[trigger] program.functions@[i2]),
                    forall|i2: int| 0 <= i2 < i ==> !#[trigger] name_dup_at(*program, i2),
                    forall|j2: int| 0 <= j2 < j ==> program.functions@[j2].name@ != program.functions@[i as int].name@,
                decreases i - j,
            {
                if program.functions[j].name == program.functions[i].name {
                    assert(name_dup_at(*program, i as int));
                    return Err(CfgError::DuplicateFunction { function: program.functions[i].name.clone() });
                }
                j = j + 1;
            }
            i = i + 1;
        }
        Ok(())
    }
}

/// Checks the control-flow graphs of `program`; see `CFGVerifier::verify`.
pub fn verify(program: &SemanticProgram) -> (r: Result<(), CfgError>)
    ensures
        r is Ok <==> program_ok(*program),
        r matches Err(e) ==> program_reports(*program, e),
{
    CFGVerifier::verify(program)
}

} // verus!
