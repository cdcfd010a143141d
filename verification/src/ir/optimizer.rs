//! Optimization passes over the semantic IR, and what they did.
//!
//! The passes here keep to what can be decided without arithmetic on
//! values: removing blocks the entry cannot reach, propagating literal
//! constants within a block, dropping unused immutable declarations, and
//! turning branches on a literal condition into jumps. Whether a
//! function's graph has a cycle (constant propagation is not loop-aware)
//! is decided here too.

use vstd::prelude::*;
use crate::common::closure::{derivable, listed_in_order, lemma_closed_holds_derivable, lemma_listed_derivable};
use crate::ir::semantic_ir::values::TypedIRValue;
use crate::ir::semantic_ir::instructions::Instruction;
use crate::ir::semantic_ir::terminators::Terminator;
use crate::ir::semantic_ir::program::{SemanticBlock, SemanticFunction, block_succs};
use crate::ir::cfg::state::lemma_filter_step;

pub mod liveness;
pub mod liveness_laws;

use self::liveness::{live, live_names, contains_name};
use crate::common::assoc::{map_of, keys_distinct, lemma_map_of_dom, lemma_map_of_index, lemma_keys_distinct_push, lemma_map_of_update};

verus! {

/// How much each pass changed, summed over the program.
#[derive(Debug, Default)]
pub struct OptimizationStats {
    pub removed_blocks: usize,
    pub folded_constants: usize,
    pub eliminated_dead_code: usize,
    pub propagated_constants: usize,
    pub simplified_branches: usize,
}

/// Runs the optimization passes and counts their work.
pub struct Optimizer {
    stats: OptimizationStats,
}

impl Optimizer {
    /// An optimizer that has done nothing yet.
    pub fn new() -> (r: Optimizer)
        ensures
            r.stats_view().removed_blocks == 0,
            r.stats_view().folded_constants == 0,
            r.stats_view().eliminated_dead_code == 0,
            r.stats_view().propagated_constants == 0,
            r.stats_view().simplified_branches == 0,
    {
        Optimizer {
            stats: OptimizationStats {
                removed_blocks: 0,
                folded_constants: 0,
                eliminated_dead_code: 0,
                propagated_constants: 0,
                simplified_branches: 0,
            },
        }
    }

    /// The work counted so far.
    pub fn stats(&self) -> (r: &OptimizationStats)
        ensures
            r == self.stats_view(),
    {
        &self.stats
    }

    pub closed spec fn stats_view(&self) -> &OptimizationStats {
        &self.stats
    }

    /// Whether a cycle can be reached from the function's entry block:
    /// some reachable block can be reached again from its own successors.
    pub fn has_cfg_cycle(func: &SemanticFunction) -> (r: bool)
        ensures
            r == exists|x: usize| #[trigger] reachable(func.blocks@, func.entry_block, x)
                && derivable(next_in(func.blocks@), succs_at(func.blocks@, x).to_set(), x),
    {
        let bs = &func.blocks;
        let ghost next = next_in(bs@);
        let entry = vec![func.entry_block];
        proof {
            assert(entry@.to_set() =~= set![func.entry_block]);
        }
        let reach = closure_of(bs, &entry);
        let mut i: usize = 0;
        while i < reach.len()
            invariant
                0 <= i <= reach@.len(),
                next == next_in(bs@),
                *bs == func.blocks,
                entry@.to_set() == set![func.entry_block],
                forall|x: usize| reach@.contains(x) <==> derivable(next, entry@.to_set(), x),
                forall|k: int| 0 <= k < i ==> !derivable(next, succs_at(bs@, #[trigger] reach@[k]).to_set(), reach@[k]),
            decreases reach@.len() - i,
        {
            let x = reach[i];
            let s = succs_of_id(bs, x);
            let back = closure_of(bs, &s);
            if contains_id(&back, x) {
                proof {
                    assert(reach@.contains(x));
                    assert(reachable(func.blocks@, func.entry_block, x));
                }
                return true;
            }
            i = i + 1;
        }
        proof {
            assert forall|x: usize| #[trigger] reachable(func.blocks@, func.entry_block, x)
                implies !derivable(next_in(func.blocks@), succs_at(func.blocks@, x).to_set(), x) by {
                assert(reach@.contains(x));
                let k = choose|k: int| 0 <= k < reach@.len() && reach@[k] == x;
            }
        }
        false
    }

    /// Removes the blocks the entry block cannot reach, keeping the others
    /// in order, and counts them.
    pub fn remove_unreachable_blocks(&mut self, func: &mut SemanticFunction)
        requires
            old(self).stats_view().removed_blocks + old(func).blocks@.len() <= usize::MAX,
        ensures
            *final(func) == with_blocks(*old(func), final(func).blocks),
            final(func).blocks@ == old(func).blocks@.filter(|b: SemanticBlock| reachable(old(func).blocks@, old(func).entry_block, b.id)),
            counts(*final(self).stats_view()) == counts(*old(self).stats_view()).update(0,
                (old(self).stats_view().removed_blocks + old(func).blocks@.len() - final(func).blocks@.len()) as nat),
    {
        let ghost bs0 = func.blocks@;
        let ghost keep = |b: SemanticBlock| reachable(bs0, func.entry_block, b.id);
        let entry = vec![func.entry_block];
        proof {
            assert(entry@.to_set() =~= set![func.entry_block]);
        }
        let reach = closure_of(&func.blocks, &entry);
        let mut rest: Vec<SemanticBlock> = Vec::new();
        std::mem::swap(&mut rest, &mut func.blocks);
        let before = rest.len();
        let mut kept: Vec<SemanticBlock> = Vec::new();
        let mut i: usize = 0;
        proof {
            reveal(Seq::filter);
            assert(bs0.take(0).filter(keep) =~= Seq::<SemanticBlock>::empty());
            assert(rest@.subrange(0, rest@.len() as int) =~= rest@);
        }
        while i < before
            invariant
                0 <= i <= before,
                before == bs0.len(),
                rest@ == bs0.subrange(i as int, before as int),
                kept@ == bs0.take(i as int).filter(keep),
                keep == (|b: SemanticBlock| reachable(bs0, func.entry_block, b.id)),
                forall|x: usize| reach@.contains(x) <==> derivable(next_in(bs0), set![func.entry_block], x),
            decreases before - i,
        {
            let b = rest.remove(0);
            proof {
                lemma_filter_step(bs0, keep, i as int);
                assert(b == bs0[i as int]);
                assert(rest@ =~= bs0.subrange(i + 1, before as int));
            }
            if contains_id(&reach, b.id) {
                kept.push(b);
            }
            i = i + 1;
        }
        assert(bs0.take(before as int) =~= bs0);
        let after = kept.len();
        func.blocks = kept;
        proof {
            broadcast use vstd::seq_lib::group_filter_ensures;
        }
        self.stats.removed_blocks = self.stats.removed_blocks + (before - after);
    }

    /// Drops the immutable declarations of variables that are not live,
    /// keeping everything else in order, and counts them.
    #[verifier::rlimit(40)]
    pub fn dead_code_elimination(&mut self, func: &mut SemanticFunction)
        requires
            old(self).stats_view().eliminated_dead_code + instr_count(old(func).blocks@) <= usize::MAX,
        ensures
            *final(func) == with_blocks(*old(func), final(func).blocks),
            final(func).blocks@.len() == old(func).blocks@.len(),
            forall|i: int| 0 <= i < old(func).blocks@.len() ==> {
                &&& (#[trigger] final(func).blocks@[i]).id == old(func).blocks@[i].id
                &&& final(func).blocks@[i].terminator == old(func).blocks@[i].terminator
                &&& final(func).blocks@[i].instructions@ == old(func).blocks@[i].instructions@.filter(|ins: Instruction| !dead(old(func).blocks@, ins))
            },
            counts(*final(self).stats_view()) == counts(*old(self).stats_view()).update(2,
                (old(self).stats_view().eliminated_dead_code + instr_count(old(func).blocks@) - instr_count(final(func).blocks@)) as nat),
    {
        broadcast use vstd::seq_lib::group_filter_ensures;
        let ghost bs0 = func.blocks@;
        let ghost keep = |ins: Instruction| !dead(bs0, ins);
        let used = live_names(&func.blocks);
        let mut rest: Vec<SemanticBlock> = Vec::new();
        std::mem::swap(&mut rest, &mut func.blocks);
        let n = rest.len();
        let mut out: Vec<SemanticBlock> = Vec::new();
        let mut removed: usize = 0;
        let mut i: usize = 0;
        assert(rest@.subrange(0, n as int) =~= rest@);
        while i < n
            invariant
                0 <= i <= n,
                n == bs0.len(),
                rest@ == bs0.subrange(i as int, n as int),
                out@.len() == i,
                keep == (|ins: Instruction| !dead(bs0, ins)),
                forall|x: Seq<char>| crate::ir::cfg::state::string_views(used@).contains(x) <==> live(bs0, x),
                forall|k: int| 0 <= k < i ==> {
                    &&& (#[trigger] out@[k]).id == bs0[k].id
                    &&& out@[k].terminator == bs0[k].terminator
                    &&& out@[k].instructions@ == bs0[k].instructions@.filter(keep)
                },
                instr_count(out@) <= instr_count(bs0.take(i as int)),
                removed == instr_count(bs0.take(i as int)) - instr_count(out@),
                instr_count(bs0.take(i as int)) <= instr_count(bs0),
                instr_count(bs0) <= usize::MAX,
            decreases n - i,
        {
            let b = rest.remove(0);
            proof {
                assert(b == bs0[i as int]);
                assert(rest@ =~= bs0.subrange(i + 1, n as int));
                assert(bs0.take(i + 1).drop_last() =~= bs0.take(i as int));
                assert(bs0.take(i + 1).last() == bs0[i as int]);
                lemma_instr_count_prefix(bs0, i + 1);
            }
            let SemanticBlock { id, instructions, terminator } = b;
            let ghost is0 = instructions@;
            let mut pending = instructions;
            let m = pending.len();
            let mut kept: Vec<Instruction> = Vec::new();
            let mut j: usize = 0;
            proof {
                reveal(Seq::filter);
                assert(is0.take(0).filter(keep) =~= Seq::<Instruction>::empty());
                assert(pending@.subrange(0, m as int) =~= pending@);
            }
            while j < m
                invariant
                    0 <= j <= m,
                    m == is0.len(),
                    pending@ == is0.subrange(j as int, m as int),
                    kept@ == is0.take(j as int).filter(keep),
                    keep == (|ins: Instruction| !dead(bs0, ins)),
                    forall|x: Seq<char>| crate::ir::cfg::state::string_views(used@).contains(x) <==> live(bs0, x),
                decreases m - j,
            {
                let ins = pending.remove(0);
                proof {
                    lemma_filter_step(is0, keep, j as int);
                    assert(ins == is0[j as int]);
                    assert(pending@ =~= is0.subrange(j + 1, m as int));
                }
                let stays = match &ins {
                    Instruction::Declare { name, mutable, .. } => *mutable || contains_name(&used, name),
                    _ => true,
                };
                if stays {
                    kept.push(ins);
                }
                j = j + 1;
            }
            assert(is0.take(m as int) =~= is0);
            assert(kept@.len() <= m);
            let ghost o0 = out@;
            removed = removed + (m - kept.len());
            out.push(SemanticBlock { id, instructions: kept, terminator });
            proof {
                assert(out@.drop_last() =~= o0);
            }
            i = i + 1;
        }
        assert(bs0.take(n as int) =~= bs0);
        func.blocks = out;
        self.stats.eliminated_dead_code = self.stats.eliminated_dead_code + removed;
    }

    /// Constant propagation as the pipeline runs it: only where the graph
    /// has no reachable cycle, since the propagation is not loop-aware.
    /// Returns whether it ran.
    pub fn propagate_if_acyclic(&mut self, func: &mut SemanticFunction) -> (ran: bool)
        requires
            old(self).stats_view().propagated_constants + instr_count(old(func).blocks@) <= usize::MAX,
        ensures
            ran == !exists|x: usize| #[trigger] reachable(old(func).blocks@, old(func).entry_block, x)
                && derivable(next_in(old(func).blocks@), succs_at(old(func).blocks@, x).to_set(), x),
            !ran ==> *final(func) == *old(func) && *final(self).stats_view() == *old(self).stats_view(),
            ran ==> *final(func) == with_blocks(*old(func), final(func).blocks),
            ran ==> final(func).blocks@.len() == old(func).blocks@.len(),
            ran ==> forall|i: int| 0 <= i < old(func).blocks@.len() ==> {
                &&& (#[trigger] final(func).blocks@[i]).id == old(func).blocks@[i].id
                &&& final(func).blocks@[i].terminator == old(func).blocks@[i].terminator
                &&& final(func).blocks@[i].instructions@ == prop_all(old(func).blocks@[i].instructions@).1
            },
            ran ==> counts(*final(self).stats_view()) == counts(*old(self).stats_view()).update(3,
                (old(self).stats_view().propagated_constants + prop_count(old(func).blocks@)) as nat),
    {
        if Self::has_cfg_cycle(func) {
            false
        } else {
            self.constant_propagation(func);
            true
        }
    }

    /// Propagates literal constants within each block (never across
    /// blocks) into assignments of variables, and counts them.
    pub fn constant_propagation(&mut self, func: &mut SemanticFunction)
        requires
            old(self).stats_view().propagated_constants + instr_count(old(func).blocks@) <= usize::MAX,
        ensures
            *final(func) == with_blocks(*old(func), final(func).blocks),
            final(func).blocks@.len() == old(func).blocks@.len(),
            forall|i: int| 0 <= i < old(func).blocks@.len() ==> {
                &&& (#[trigger] final(func).blocks@[i]).id == old(func).blocks@[i].id
                &&& final(func).blocks@[i].terminator == old(func).blocks@[i].terminator
                &&& final(func).blocks@[i].instructions@ == prop_all(old(func).blocks@[i].instructions@).1
            },
            counts(*final(self).stats_view()) == counts(*old(self).stats_view()).update(3,
                (old(self).stats_view().propagated_constants + prop_count(old(func).blocks@)) as nat),
    {
        let ghost bs0 = func.blocks@;
        let mut rest: Vec<SemanticBlock> = Vec::new();
        std::mem::swap(&mut rest, &mut func.blocks);
        let n = rest.len();
        let mut out: Vec<SemanticBlock> = Vec::new();
        let mut total: usize = 0;
        let mut i: usize = 0;
        assert(rest@.subrange(0, n as int) =~= rest@);
        while i < n
            invariant
                0 <= i <= n,
                n == bs0.len(),
                rest@ == bs0.subrange(i as int, n as int),
                out@.len() == i,
                forall|k: int| 0 <= k < i ==> {
                    &&& (#[trigger] out@[k]).id == bs0[k].id
                    &&& out@[k].terminator == bs0[k].terminator
                    &&& out@[k].instructions@ == prop_all(bs0[k].instructions@).1
                },
                total == prop_count(bs0.take(i as int)),
                total <= instr_count(bs0.take(i as int)),
                instr_count(bs0.take(i as int)) <= instr_count(bs0),
                instr_count(bs0) <= usize::MAX,
            decreases n - i,
        {
            let b = rest.remove(0);
            proof {
                assert(b == bs0[i as int]);
                assert(rest@ =~= bs0.subrange(i + 1, n as int));
                assert(bs0.take(i + 1).drop_last() =~= bs0.take(i as int));
                assert(bs0.take(i + 1).last() == bs0[i as int]);
                lemma_instr_count_prefix(bs0, i + 1);
            }
            let SemanticBlock { id, instructions, terminator } = b;
            let (instrs, k) = propagate_block(instructions);
            total = total + k;
            out.push(SemanticBlock { id, instructions: instrs, terminator });
            i = i + 1;
        }
        assert(bs0.take(n as int) =~= bs0);
        func.blocks = out;
        self.stats.propagated_constants = self.stats.propagated_constants + total;
    }

    /// Counts `n` more folded constants (folding itself computes in
    /// floating point and is done by the caller).
    pub fn count_folded(&mut self, n: usize)
        requires
            old(self).stats_view().folded_constants + n <= usize::MAX,
        ensures
            counts(*final(self).stats_view()) == counts(*old(self).stats_view()).update(1,
                (old(self).stats_view().folded_constants + n) as nat),
    {
        self.stats.folded_constants = self.stats.folded_constants + n;
    }

    /// Turns each branch on a literal condition into a jump to the branch
    /// it always takes, and counts them.
    pub fn simplify_branches(&mut self, func: &mut SemanticFunction)
        requires
            old(self).stats_view().simplified_branches + old(func).blocks@.len() <= usize::MAX,
        ensures
            *final(func) == with_blocks(*old(func), final(func).blocks),
            final(func).blocks@.len() == old(func).blocks@.len(),
            forall|i: int| 0 <= i < old(func).blocks@.len() ==> final(func).blocks@[i] == #[trigger] simplified(old(func).blocks@[i]),
            counts(*final(self).stats_view()) == counts(*old(self).stats_view()).update(4,
                (old(self).stats_view().simplified_branches + literal_branches(old(func).blocks@)) as nat),
    {
        let ghost bs0 = func.blocks@;
        let mut rest: Vec<SemanticBlock> = Vec::new();
        std::mem::swap(&mut rest, &mut func.blocks);
        let n = rest.len();
        let mut out: Vec<SemanticBlock> = Vec::new();
        let mut count: usize = 0;
        let mut i: usize = 0;
        assert(rest@.subrange(0, n as int) =~= rest@);
        while i < n
            invariant
                0 <= i <= n,
                n == bs0.len(),
                rest@ == bs0.subrange(i as int, n as int),
                out@.len() == i,
                forall|k: int| 0 <= k < i ==> out@[k] == #[trigger] simplified(bs0[k]),
                count == literal_branches(bs0.take(i as int)),
                count <= i,
            decreases n - i,
        {
            let mut b = rest.remove(0);
            proof {
                assert(b == bs0[i as int]);
                assert(rest@ =~= bs0.subrange(i + 1, n as int));
                assert(bs0.take(i + 1).drop_last() =~= bs0.take(i as int));
                assert(bs0.take(i + 1).last() == bs0[i as int]);
            }
            let target = match &b.terminator {
                Some(Terminator::Branch { condition: TypedIRValue::Bool(c), then_block, else_block }) => {
                    if *c { Some(*then_block) } else { Some(*else_block) }
                },
                _ => None,
            };
            match target {
                Some(t) => {
                    b.terminator = Some(Terminator::Jump { block: t });
                    count = count + 1;
                },
                None => {},
            }
            out.push(b);
            i = i + 1;
        }
        assert(bs0.take(n as int) =~= bs0);
        func.blocks = out;
        self.stats.simplified_branches = self.stats.simplified_branches + count;
    }
}

/// The counts, in the order of the fields.
pub open spec fn counts(s: OptimizationStats) -> Seq<nat> {
    seq![s.removed_blocks as nat, s.folded_constants as nat, s.eliminated_dead_code as nat,
        s.propagated_constants as nat, s.simplified_branches as nat]
}

/// `f` with blocks `bs` and everything else as it was.
pub open spec fn with_blocks(f: SemanticFunction, bs: Vec<SemanticBlock>) -> SemanticFunction {
    SemanticFunction {
        name: f.name,
        params: f.params,
        return_type: f.return_type,
        blocks: bs,
        entry_block: f.entry_block,
        is_extern: f.is_extern,
    }
}

/// A block whose branch on a literal condition has become a jump to the
/// branch it always takes; other blocks as they are.
pub open spec fn simplified(b: SemanticBlock) -> SemanticBlock {
    match b.terminator {
        Some(Terminator::Branch { condition: TypedIRValue::Bool(c), then_block, else_block }) => SemanticBlock {
            id: b.id,
            instructions: b.instructions,
            terminator: Some(Terminator::Jump { block: if c { then_block } else { else_block } }),
        },
        _ => b,
    }
}

/// How many of the blocks branch on a literal condition.
pub open spec fn literal_branches(bs: Seq<SemanticBlock>) -> nat
    decreases bs.len(),
{
    if bs.len() == 0 {
        0
    } else {
        literal_branches(bs.drop_last()) + if bs.last().terminator matches Some(Terminator::Branch { condition: TypedIRValue::Bool(_), .. }) { 1nat } else { 0nat }
    }
}

/// An immutable declaration of a variable that is not live.
pub open spec fn dead(bs: Seq<SemanticBlock>, i: Instruction) -> bool {
    i matches Instruction::Declare { name, mutable, .. } && !mutable && !live(bs, name@)
}

/// How many instructions the blocks hold.
pub open spec fn instr_count(bs: Seq<SemanticBlock>) -> nat
    decreases bs.len(),
{
    if bs.len() == 0 { 0 } else { instr_count(bs.drop_last()) + bs.last().instructions@.len() }
}

/// A literal: an integer, float, boolean or string.
pub open spec fn is_lit(v: TypedIRValue) -> bool {
    v is Int || v is Float || v is Bool || v is String
}

/// A numeric literal.
pub open spec fn is_num(v: TypedIRValue) -> bool {
    v is Int || v is Float
}

pub type Consts = Map<Seq<char>, TypedIRValue>;

/// One instruction under the constants known before it: the constants
/// after it, the instruction as rewritten, and how many values were
/// replaced. A declaration by a literal records it; an assignment of a
/// known variable takes its value, then records the target if the value
/// is numeric and forgets it otherwise.
pub open spec fn prop_step(c: Consts, i: Instruction) -> (Consts, Instruction, nat) {
    match i {
        Instruction::Declare { name, value, .. } => (if is_lit(value) { c.insert(name@, value) } else { c }, i, 0),
        Instruction::Assign { target, value } => {
            let (v2, n) = match value {
                TypedIRValue::Variable(x, _) => if c.contains_key(x@) { (c[x@], 1nat) } else { (value, 0nat) },
                _ => (value, 0nat),
            };
            (
                if is_num(v2) { c.insert(target@, v2) } else { c.remove(target@) },
                Instruction::Assign { target, value: v2 },
                n,
            )
        },
        _ => (c, i, 0),
    }
}

/// The instructions of a block rewritten in order from no known
/// constants, with the constants after them and the count.
pub open spec fn prop_all(is: Seq<Instruction>) -> (Consts, Seq<Instruction>, nat)
    decreases is.len(),
{
    if is.len() == 0 {
        (Map::empty(), Seq::empty(), 0)
    } else {
        let (c1, o1, n1) = prop_all(is.drop_last());
        let (c2, i2, n2) = prop_step(c1, is.last());
        (c2, o1.push(i2), n1 + n2)
    }
}

/// How many values propagation replaces in the blocks.
pub open spec fn prop_count(bs: Seq<SemanticBlock>) -> nat
    decreases bs.len(),
{
    if bs.len() == 0 { 0 } else { prop_count(bs.drop_last()) + prop_all(bs.last().instructions@).2 }
}

// ─── The graph of a function ────────────────────────────────────────

/// The first block of `bs` with id `id`.
pub open spec fn first_block(bs: Seq<SemanticBlock>, id: usize) -> Option<SemanticBlock>
    decreases bs.len(),
{
    if bs.len() == 0 {
        None
    } else if bs[0].id == id {
        Some(bs[0])
    } else {
        first_block(bs.drop_first(), id)
    }
}

/// The successors of block `id`: those of the first block with that id.
pub open spec fn succs_at(bs: Seq<SemanticBlock>, id: usize) -> Seq<usize> {
    match first_block(bs, id) {
        Some(b) => block_succs(b),
        None => Seq::empty(),
    }
}

pub open spec fn next_in(bs: Seq<SemanticBlock>) -> spec_fn(usize) -> Set<usize> {
    |id: usize| succs_at(bs, id).to_set()
}

/// Block `x` can be reached from block `entry`.
pub open spec fn reachable(bs: Seq<SemanticBlock>, entry: usize, x: usize) -> bool {
    derivable(next_in(bs), set![entry], x)
}

/// Every successor named by a block of `bs`.
pub open spec fn all_targets(bs: Seq<SemanticBlock>) -> Seq<usize>
    decreases bs.len(),
{
    if bs.len() == 0 { Seq::empty() } else { all_targets(bs.drop_last()) + block_succs(bs.last()) }
}

proof fn lemma_first_block(bs: Seq<SemanticBlock>, id: usize, k: int)
    requires
        0 <= k <= bs.len(),
        forall|j: int| 0 <= j < k ==> bs[j].id != id,
    ensures
        k < bs.len() && bs[k].id == id ==> first_block(bs, id) == Some(bs[k]),
        k == bs.len() ==> first_block(bs, id) is None,
    decreases k,
{
    if k > 0 {
        lemma_first_block(bs.drop_first(), id, k - 1);
    }
}

proof fn lemma_first_block_in(bs: Seq<SemanticBlock>, id: usize)
    ensures
        first_block(bs, id) matches Some(b) ==> exists|k: int| 0 <= k < bs.len() && bs[k] == b,
    decreases bs.len(),
{
    if bs.len() > 0 && bs[0].id != id {
        lemma_first_block_in(bs.drop_first(), id);
        if first_block(bs, id) is Some {
            let b = first_block(bs, id)->0;
            let k = choose|k: int| 0 <= k < bs.drop_first().len() && bs.drop_first()[k] == b;
            assert(bs[k + 1] == b);
        }
    } else if bs.len() > 0 {
        assert(bs[0] == first_block(bs, id)->0);
    }
}

proof fn lemma_targets_of(bs: Seq<SemanticBlock>, k: int, t: usize)
    requires
        0 <= k < bs.len(),
        block_succs(bs[k]).contains(t),
    ensures
        all_targets(bs).contains(t),
    decreases bs.len(),
{
    if k < bs.len() - 1 {
        lemma_targets_of(bs.drop_last(), k, t);
        let a = all_targets(bs.drop_last());
        let i = choose|i: int| 0 <= i < a.len() && a[i] == t;
        assert((a + block_succs(bs.last()))[i] == t);
    } else {
        let b = block_succs(bs.last());
        let i = choose|i: int| 0 <= i < b.len() && b[i] == t;
        assert((all_targets(bs.drop_last()) + b)[all_targets(bs.drop_last()).len() + i] == t);
    }
}

/// Every successor of any block id is named by some block.
proof fn lemma_succs_in_targets(bs: Seq<SemanticBlock>, id: usize, t: usize)
    requires
        succs_at(bs, id).contains(t),
    ensures
        all_targets(bs).contains(t),
{
    lemma_first_block_in(bs, id);
    let b = first_block(bs, id)->0;
    let k = choose|k: int| 0 <= k < bs.len() && bs[k] == b;
    lemma_targets_of(bs, k, t);
}

proof fn lemma_instr_count_prefix(bs: Seq<SemanticBlock>, i: int)
    requires
        0 <= i <= bs.len(),
    ensures
        instr_count(bs.take(i)) <= instr_count(bs),
    decreases bs.len() - i,
{
    if i < bs.len() {
        lemma_instr_count_prefix(bs, i + 1);
        assert(bs.take(i + 1).drop_last() =~= bs.take(i));
    } else {
        assert(bs.take(i) =~= bs);
    }
}

/// The literal `v`, copied.
fn copy_literal(v: &TypedIRValue) -> (r: TypedIRValue)
    requires
        is_lit(*v),
    ensures
        r == *v,
{
    match v {
        TypedIRValue::Int(i) => TypedIRValue::Int(*i),
        TypedIRValue::Float(f) => TypedIRValue::Float(*f),
        TypedIRValue::Bool(b) => TypedIRValue::Bool(*b),
        TypedIRValue::String(s) => TypedIRValue::String(s.clone()),
        _ => TypedIRValue::Void,
    }
}

pub open spec fn const_entries(v: Seq<(String, TypedIRValue)>) -> Seq<(Seq<char>, TypedIRValue)> {
    Seq::new(v.len(), |i: int| (v[i].0@, v[i].1))
}

proof fn lemma_map_of_remove<V>(s: Seq<(Seq<char>, V)>, k: int)
    requires
        keys_distinct(s),
        0 <= k < s.len(),
    ensures
        keys_distinct(s.remove(k)),
        map_of(s.remove(k)) == map_of(s).remove(s[k].0),
{
    let t = s.remove(k);
    assert forall|i: int, j: int| 0 <= i < j < t.len() implies #[trigger] t[i].0 != #[trigger] t[j].0 by {
        let i2 = if i < k { i } else { i + 1 };
        let j2 = if j < k { j } else { j + 1 };
        assert(t[i] == s[i2] && t[j] == s[j2]);
        assert(s[i2].0 != s[j2].0);
    }
    assert forall|x: Seq<char>| #[trigger] map_of(t).contains_key(x) == map_of(s).remove(s[k].0).contains_key(x)
        && (map_of(t).contains_key(x) ==> map_of(t)[x] == map_of(s)[x]) by {
        lemma_map_of_dom(t, x);
        lemma_map_of_dom(s, x);
        if map_of(t).contains_key(x) {
            let i = choose|i: int| 0 <= i < t.len() && #[trigger] t[i].0 == x;
            let i2 = if i < k { i } else { i + 1 };
            assert(t[i] == s[i2]);
            lemma_map_of_index(t, i);
            lemma_map_of_index(s, i2);
        }
        if map_of(s).remove(s[k].0).contains_key(x) {
            let i = choose|i: int| 0 <= i < s.len() && #[trigger] s[i].0 == x;
            assert(i != k);
            let i2 = if i < k { i } else { i - 1 };
            assert(t[i2] == s[i]);
        }
    }
    assert(map_of(t) =~= map_of(s).remove(s[k].0));
}

/// Forgets `name`.
fn forget(c: &mut Vec<(String, TypedIRValue)>, name: &String)
    requires
        keys_distinct(const_entries(old(c)@)),
    ensures
        keys_distinct(const_entries(final(c)@)),
        map_of(const_entries(final(c)@)) == map_of(const_entries(old(c)@)).remove(name@),
{
    let ghost c0 = c@;
    let mut i: usize = 0;
    while i < c.len()
        invariant
            0 <= i <= c@.len(),
            c@ == c0,
            c0 == old(c)@,
            keys_distinct(const_entries(c0)),
            forall|k: int| 0 <= k < i ==> c@[k].0@ != name@,
        decreases c@.len() - i,
    {
        if c[i].0 == *name {
            let _ = c.remove(i);
            proof {
                lemma_map_of_remove(const_entries(c0), i as int);
                assert(const_entries(c@) =~= const_entries(c0).remove(i as int));
                assert(const_entries(c0)[i as int].0 == name@);
            }
            return;
        }
        i = i + 1;
    }
    proof {
        lemma_map_of_dom(const_entries(c0), name@);
        assert(map_of(const_entries(c0)).remove(name@) =~= map_of(const_entries(c0)));
    }
}

/// Records that `name` holds `v`.
fn remember(c: &mut Vec<(String, TypedIRValue)>, name: &String, v: TypedIRValue)
    requires
        keys_distinct(const_entries(old(c)@)),
    ensures
        keys_distinct(const_entries(final(c)@)),
        map_of(const_entries(final(c)@)) == map_of(const_entries(old(c)@)).insert(name@, v),
{
    let ghost c0 = c@;
    let ghost v0 = v;
    let mut i: usize = 0;
    while i < c.len()
        invariant
            0 <= i <= c@.len(),
            c@ == c0,
            c0 == old(c)@,
            v == v0,
            keys_distinct(const_entries(c0)),
            forall|k: int| 0 <= k < i ==> c@[k].0@ != name@,
        decreases c@.len() - i,
    {
        if c[i].0 == *name {
            let _ = c.remove(i);
            c.insert(i, (name.clone(), v));
            proof {
                assert(c@ =~= c0.update(i as int, c@[i as int]));
                lemma_map_of_update(const_entries(c0), i as int, v0);
                assert(const_entries(c@) =~= const_entries(c0).update(i as int, (const_entries(c0)[i as int].0, v0)));
                assert(const_entries(c0)[i as int].0 == name@);
            }
            return;
        }
        i = i + 1;
    }
    let ghost e = (name@, v);
    c.push((name.clone(), v));
    proof {
        assert forall|k: int| 0 <= k < const_entries(c0).len() implies #[trigger] const_entries(c0)[k].0 != e.0 by {}
        lemma_keys_distinct_push(const_entries(c0), e);
        assert(const_entries(c@) =~= const_entries(c0).push(e));
    }
}

/// The value known for `name`, copied.
fn known(c: &Vec<(String, TypedIRValue)>, name: &String) -> (r: Option<TypedIRValue>)
    requires
        keys_distinct(const_entries(c@)),
        forall|x: Seq<char>| #[trigger] map_of(const_entries(c@)).contains_key(x) ==> is_lit(map_of(const_entries(c@))[x]),
    ensures
        match r {
            Some(v) => map_of(const_entries(c@)).contains_key(name@) && map_of(const_entries(c@))[name@] == v,
            None => !map_of(const_entries(c@)).contains_key(name@),
        },
{
    let mut i: usize = 0;
    while i < c.len()
        invariant
            0 <= i <= c@.len(),
            keys_distinct(const_entries(c@)),
            forall|x: Seq<char>| #[trigger] map_of(const_entries(c@)).contains_key(x) ==> is_lit(map_of(const_entries(c@))[x]),
            forall|k: int| 0 <= k < i ==> c@[k].0@ != name@,
        decreases c@.len() - i,
    {
        if c[i].0 == *name {
            proof {
                lemma_map_of_index(const_entries(c@), i as int);
                assert(const_entries(c@)[i as int].0 == name@);
                assert(map_of(const_entries(c@)).contains_key(name@));
            }
            return Some(copy_literal(&c[i].1));
        }
        i = i + 1;
    }
    proof {
        lemma_map_of_dom(const_entries(c@), name@);
        assert forall|k: int| 0 <= k < const_entries(c@).len() implies #[trigger] const_entries(c@)[k].0 != name@ by {}
    }
    None
}

/// Whether `v` is a literal.
fn is_literal(v: &TypedIRValue) -> (r: bool)
    ensures
        r == is_lit(*v),
{
    match v {
        TypedIRValue::Int(_) | TypedIRValue::Float(_) | TypedIRValue::Bool(_) | TypedIRValue::String(_) => true,
        _ => false,
    }
}

/// Whether `v` is a numeric literal.
fn is_numeric(v: &TypedIRValue) -> (r: bool)
    ensures
        r == is_num(*v),
{
    match v {
        TypedIRValue::Int(_) | TypedIRValue::Float(_) => true,
        _ => false,
    }
}

/// The instructions of one block with known literal constants
/// propagated into assignments, and how many were replaced.
#[verifier::rlimit(40)]
fn propagate_block(instructions: Vec<Instruction>) -> (r: (Vec<Instruction>, usize))
    requires
        instructions@.len() <= usize::MAX,
    ensures
        r.0@ == prop_all(instructions@).1,
        r.1 == prop_all(instructions@).2,
        r.1 <= instructions@.len(),
{
    let ghost is0 = instructions@;
    let mut pending = instructions;
    let m = pending.len();
    let mut c: Vec<(String, TypedIRValue)> = Vec::new();
    let mut out: Vec<Instruction> = Vec::new();
    let mut count: usize = 0;
    let mut j: usize = 0;
    proof {
        assert(const_entries(c@) =~= Seq::<(Seq<char>, TypedIRValue)>::empty());
        assert(map_of(const_entries(c@)) =~= Map::<Seq<char>, TypedIRValue>::empty());
        assert(is0.take(0) =~= Seq::<Instruction>::empty());
        assert(pending@.subrange(0, m as int) =~= pending@);
    }
    while j < m
        invariant
            0 <= j <= m,
            m == is0.len(),
            pending@ == is0.subrange(j as int, m as int),
            keys_distinct(const_entries(c@)),
            forall|x: Seq<char>| #[trigger] map_of(const_entries(c@)).contains_key(x) ==> is_lit(map_of(const_entries(c@))[x]),
            (map_of(const_entries(c@)), out@, count as nat) == prop_all(is0.take(j as int)),
            count <= j,
        decreases m - j,
    {
        let ins = pending.remove(0);
        let ghost c0 = map_of(const_entries(c@));
        proof {
            assert(ins == is0[j as int]);
            assert(pending@ =~= is0.subrange(j + 1, m as int));
            assert(is0.take(j + 1).drop_last() =~= is0.take(j as int));
            assert(is0.take(j + 1).last() == is0[j as int]);
        }
        match ins {
            Instruction::Declare { name, mutable, type_, value } => {
                if is_literal(&value) {
                    let lit = copy_literal(&value);
                    remember(&mut c, &name, lit);
                }
                out.push(Instruction::Declare { name, mutable, type_, value });
            },
            Instruction::Assign { target, value } => {
                let replacement = match &value {
                    TypedIRValue::Variable(x, _) => known(&c, x),
                    _ => None,
                };
                let (v2, n): (TypedIRValue, usize) = match replacement {
                    Some(k) => (k, 1),
                    None => (value, 0),
                };
                if is_numeric(&v2) {
                    let lit = copy_literal(&v2);
                    remember(&mut c, &target, lit);
                } else {
                    forget(&mut c, &target);
                }
                out.push(Instruction::Assign { target, value: v2 });
                count = count + n;
            },
            other => {
                out.push(other);
            },
        }
        proof {
            assert forall|x: Seq<char>| #[trigger] map_of(const_entries(c@)).contains_key(x) implies is_lit(map_of(const_entries(c@))[x]) by {
                if c0.contains_key(x) {
                    assert(is_lit(c0[x]));
                }
            }
        }
        j = j + 1;
    }
    assert(is0.take(m as int) =~= is0);
    (out, count)
}

/// Whether `x` is among `v`.
fn contains_id(v: &Vec<usize>, x: usize) -> (r: bool)
    ensures
        r == v@.contains(x),
{
    let mut i: usize = 0;
    while i < v.len()
        invariant
            0 <= i <= v@.len(),
            forall|k: int| 0 <= k < i ==> v@[k] != x,
        decreases v@.len() - i,
    {
        if v[i] == x {
            return true;
        }
        i = i + 1;
    }
    false
}

/// The index of the first block with id `id`.
fn find_first(bs: &Vec<SemanticBlock>, id: usize) -> (r: Option<usize>)
    ensures
        match r {
            Some(k) => k < bs@.len() && first_block(bs@, id) == Some(bs@[k as int]),
            None => first_block(bs@, id) is None,
        },
{
    let mut i: usize = 0;
    while i < bs.len()
        invariant
            0 <= i <= bs@.len(),
            forall|j: int| 0 <= j < i ==> bs@[j].id != id,
        decreases bs@.len() - i,
    {
        if bs[i].id == id {
            proof { lemma_first_block(bs@, id, i as int); }
            return Some(i);
        }
        i = i + 1;
    }
    proof { lemma_first_block(bs@, id, i as int); }
    None
}

/// The successors of block `id`.
fn succs_of_id(bs: &Vec<SemanticBlock>, id: usize) -> (r: Vec<usize>)
    ensures
        r@ == succs_at(bs@, id),
{
    match find_first(bs, id) {
        Some(k) => bs[k].successors(),
        None => Vec::new(),
    }
}

pub proof fn lemma_len_bound<A>(v: Seq<A>, cands: Seq<A>)
    requires
        v.no_duplicates(),
        forall|i: int| 0 <= i < v.len() ==> cands.contains(#[trigger] v[i]),
    ensures
        v.len() <= cands.len(),
{
    v.unique_seq_to_set();
    cands.lemma_cardinality_of_set();
    assert(v.to_set().subset_of(cands.to_set())) by {
        assert forall|x: A| v.to_set().contains(x) implies cands.to_set().contains(x) by {
            let i = choose|i: int| 0 <= i < v.len() && v[i] == x;
        }
    }
    vstd::set_lib::lemma_len_subset(v.to_set(), cands.to_set());
}

/// The blocks reachable from the ids `starts` (the starts included),
/// each once.
#[verifier::rlimit(60)]
#[verifier::spinoff_prover]
fn closure_of(bs: &Vec<SemanticBlock>, starts: &Vec<usize>) -> (r: Vec<usize>)
    ensures
        forall|x: usize| r@.contains(x) <==> derivable(next_in(bs@), starts@.to_set(), x),
{
    let ghost next = next_in(bs@);
    let ghost s0 = starts@.to_set();
    let ghost cands = starts@ + all_targets(bs@);
    let mut reach: Vec<usize> = Vec::new();
    let mut i: usize = 0;
    while i < starts.len()
        invariant
            0 <= i <= starts@.len(),
            next == next_in(bs@),
            s0 == starts@.to_set(),
            cands == starts@ + all_targets(bs@),
            reach@.no_duplicates(),
            forall|k: int| 0 <= k < reach@.len() ==> cands.contains(#[trigger] reach@[k]),
            forall|k: int| 0 <= k < reach@.len() ==> s0.contains(#[trigger] reach@[k]),
            forall|k: int| 0 <= k < i ==> reach@.contains(#[trigger] starts@[k]),
        decreases starts@.len() - i,
    {
        let x = starts[i];
        let ghost before = reach@;
        if !contains_id(&reach, x) {
            reach.push(x);
            proof {
                assert(cands[i as int] == x);
                assert(starts@.contains(x));
                assert(s0.contains(x));
                assert forall|m: int| 0 <= m < reach@.len() implies s0.contains(#[trigger] reach@[m]) && cands.contains(reach@[m]) by {
                    if m < before.len() {
                        assert(reach@[m] == before[m]);
                    }
                }
                assert forall|m: int| 0 <= m < i + 1 implies reach@.contains(#[trigger] starts@[m]) by {
                    if m < i {
                        let q = choose|q: int| 0 <= q < before.len() && before[q] == starts@[m];
                        assert(reach@[q] == starts@[m]);
                    } else {
                        assert(reach@[before.len() as int] == x);
                    }
                }
            }
        }
        i = i + 1;
    }
    proof {
        assert(listed_in_order(next, s0, reach@));
    }
    let mut k: usize = 0;
    proof { lemma_len_bound(reach@, cands); }
    while k < reach.len()
        invariant
            0 <= k <= reach@.len(),
            reach@.len() <= cands.len(),
            next == next_in(bs@),
            s0 == starts@.to_set(),
            cands == starts@ + all_targets(bs@),
            reach@.no_duplicates(),
            forall|j: int| 0 <= j < reach@.len() ==> cands.contains(#[trigger] reach@[j]),
            listed_in_order(next, s0, reach@),
            forall|x: usize| s0.contains(x) ==> reach@.contains(x),
            forall|j: int, t: usize| 0 <= j < k && #[trigger] next(reach@[j]).contains(t) ==> reach@.contains(t),
        decreases cands.len() - k,
    {
        let x = reach[k];
        let succs = succs_of_id(bs, x);
        let ghost r0 = reach@;
        let mut j: usize = 0;
        while j < succs.len()
            invariant
                0 <= j <= succs@.len(),
                k < reach@.len(),
                reach@[k as int] == x,
                succs@ == succs_at(bs@, x),
                next == next_in(bs@),
                cands == starts@ + all_targets(bs@),
                reach@.len() >= r0.len(),
                reach@.subrange(0, r0.len() as int) == r0,
                reach@.no_duplicates(),
                forall|m: int| 0 <= m < reach@.len() ==> cands.contains(#[trigger] reach@[m]),
                listed_in_order(next, s0, reach@),
                forall|m: int| 0 <= m < j ==> reach@.contains(#[trigger] succs@[m]),
            decreases succs@.len() - j,
        {
            let t = succs[j];
            if !contains_id(&reach, t) {
                let ghost before = reach@;
                reach.push(t);
                proof {
                    assert(succs_at(bs@, x).contains(t)) by { assert(succs@[j as int] == t); }
                    lemma_succs_in_targets(bs@, x, t);
                    assert((starts@ + all_targets(bs@)).contains(t)) by {
                        let q = choose|q: int| 0 <= q < all_targets(bs@).len() && all_targets(bs@)[q] == t;
                        assert((starts@ + all_targets(bs@))[starts@.len() + q] == t);
                    }
                    assert(next(x).contains(t));
                    assert forall|m: int| 0 <= m < reach@.len() implies s0.contains(#[trigger] reach@[m])
                        || exists|q: int| 0 <= q < m && next(reach@[q]).contains(reach@[m]) by {
                        if m < before.len() {
                            assert(reach@[m] == before[m]);
                            if !s0.contains(before[m]) {
                                let q = choose|q: int| 0 <= q < m && next(before[q]).contains(before[m]);
                                assert(reach@[q] == before[q]);
                            }
                        } else {
                            assert(reach@[k as int] == x);
                        }
                    }
                    assert(reach@.subrange(0, r0.len() as int) =~= r0);
                    assert forall|m: int| 0 <= m < j + 1 implies reach@.contains(#[trigger] succs@[m]) by {
                        if m < j {
                            let q = choose|q: int| 0 <= q < before.len() && before[q] == succs@[m];
                            assert(reach@[q] == succs@[m]);
                        } else {
                            assert(reach@[before.len() as int] == t);
                        }
                    }
                }
            }
            j = j + 1;
        }
        proof {
            assert forall|j2: int, t: usize| 0 <= j2 < k + 1 && #[trigger] next(reach@[j2]).contains(t) implies reach@.contains(t) by {
                if j2 < k {
                    assert(reach@[j2] == r0[j2]);
                    assert(next(r0[j2]).contains(t));
                    let q = choose|q: int| 0 <= q < r0.len() && r0[q] == t;
                    assert(reach@[q] == t);
                } else {
                    assert(succs_at(bs@, x).to_set().contains(t));
                    let q = choose|q: int| 0 <= q < succs@.len() && succs@[q] == t;
                    assert(reach@.contains(succs@[q]));
                }
            }
            assert forall|y: usize| s0.contains(y) implies reach@.contains(y) by {
                let q = choose|q: int| 0 <= q < r0.len() && r0[q] == y;
                assert(reach@[q] == y);
            }
            lemma_len_bound(reach@, cands);
        }
        k = k + 1;
    }
    proof {
        let rs = reach@.to_set();
        assert forall|y: usize, z: usize| rs.contains(y) && #[trigger] next(y).contains(z) implies rs.contains(z) by {
            let q = choose|q: int| 0 <= q < reach@.len() && reach@[q] == y;
            assert(next(reach@[q]).contains(z));
        }
        assert forall|x: usize| reach@.contains(x) <==> derivable(next, s0, x) by {
            if derivable(next, s0, x) {
                lemma_closed_holds_derivable(next, s0, rs, x);
            }
            if reach@.contains(x) {
                let q = choose|q: int| 0 <= q < reach@.len() && reach@[q] == x;
                lemma_listed_derivable(next, s0, reach@, q);
            }
        }
    }
    reach
}

impl Default for Optimizer {
    fn default() -> (r: Optimizer) {
        Optimizer::new()
    }
}

} // verus!
