//! The worklist engine: runs a transfer over a graph until no block's
//! out-state changes, and over every function of a program.

use vstd::prelude::*;
use std::collections::{HashMap, HashSet};
use super::state::{SemanticState, StateModel, VarState, state_join, empty_state, declared};
use super::state::string_views;
use super::dataflow::{BlockId, Cfg, CfgBlock, FunctionCfg, DataflowDiagnostic, Transfer, TransferResult, succs_of, preds_of, edges_agree, diag_model, diag_models, available, text3};

verus! {

broadcast use {vstd::std_specs::hash::group_hash_axioms, vstd::seq_lib::group_seq_properties};

/// Runs a transfer over control-flow graphs.
pub struct DataflowEngine<T: Transfer> {
    pub transfer: T,
}

/// The states reached by a run, what it found, and the blocks it visited.
#[derive(Debug)]
pub struct DataflowResult {
    pub in_states: HashMap<BlockId, SemanticState>,
    pub out_states: HashMap<BlockId, SemanticState>,
    pub diagnostics: Vec<DataflowDiagnostic>,
    pub visited: HashSet<BlockId>,
    /// The visited blocks, in the order they were first reached.
    pub order: Vec<BlockId>,
    /// Whether every worklist ran empty.
    pub converged: bool,
    /// How many blocks were taken from the worklists. A run stops short of
    /// an empty worklist only after `usize::MAX` of them.
    pub steps: usize,
}

// ─── The model of a run ─────────────────────────────────────────────

/// The models of the states of a block map.
pub open spec fn models(m: Map<BlockId, SemanticState>) -> Map<BlockId, StateModel> {
    m.map_values(|s: SemanticState| s.model())
}

/// The join, in order, of the out-states of those of `preds` that have one.
pub open spec fn joined_from(outs: Map<BlockId, StateModel>, preds: Seq<BlockId>) -> Option<StateModel>
    decreases preds.len(),
{
    if preds.len() == 0 {
        None
    } else {
        let prev = joined_from(outs, preds.drop_last());
        let p = preds.last();
        if outs.contains_key(p) {
            match prev {
                None => Some(outs[p]),
                Some(j) => Some(state_join(j, outs[p])),
            }
        } else {
            prev
        }
    }
}

/// The state entering block `b`: the entry state at the entry, else the
/// join of its predecessors' out-states (empty when none has one).
pub open spec fn incoming_for(cfg: Cfg, outs: Map<BlockId, StateModel>, entry: StateModel, b: BlockId) -> StateModel {
    if b == cfg.entry {
        entry
    } else {
        match joined_from(outs, preds_of(cfg, b)) {
            Some(j) => j,
            None => empty_state(),
        }
    }
}

/// Every visited block has an in- and an out-state, its out-state is what
/// the transfer makes of its in-state, and the findings of that step are
/// among the result's diagnostics.
pub open spec fn consistent<T: Transfer>(t: T, cfg: Cfg, r: DataflowResult) -> bool {
    &&& r.in_states@.dom() == r.visited@
    &&& r.out_states@.dom() == r.visited@
    &&& forall|b: BlockId| #[trigger] r.visited@.contains(b) ==> {
        &&& cfg.blocks@.contains_key(b)
        &&& r.in_states@[b].wf()
        &&& r.out_states@[b].wf()
        &&& r.out_states@[b].model() == t.outcome(cfg.blocks@[b], r.in_states@[b].model()).0
    }
    &&& forall|b: BlockId, k: int| #![trigger t.outcome(cfg.blocks@[b], r.in_states@[b].model()).1[k]]
        r.visited@.contains(b) && 0 <= k < t.outcome(cfg.blocks@[b], r.in_states@[b].model()).1.len()
        ==> diag_models(r.diagnostics@).contains(t.outcome(cfg.blocks@[b], r.in_states@[b].model()).1[k])
}

/// Block `order[i]` is the entry or a successor of a block reached before it.
pub open spec fn reached_from_earlier(cfg: Cfg, order: Seq<BlockId>, i: int) -> bool {
    order[i] == cfg.entry || exists|j: int| 0 <= j < i && #[trigger] succs_of(cfg, order[j]).contains(order[i])
}

/// The visited blocks are listed once each, in an order in which each is
/// reached from the entry through blocks listed before it.
pub open spec fn ordered(cfg: Cfg, r: DataflowResult) -> bool {
    &&& r.visited@ == r.order@.to_set()
    &&& r.order@.no_duplicates()
    &&& forall|i: int| 0 <= i < r.order@.len() ==> #[trigger] reached_from_earlier(cfg, r.order@, i)
}

/// Every block of the graph that follows a visited block (or is the entry)
/// was visited.
pub open spec fn closed(cfg: Cfg, r: DataflowResult) -> bool {
    &&& cfg.blocks@.contains_key(cfg.entry) ==> r.visited@.contains(cfg.entry)
    &&& forall|p: BlockId, s: BlockId| #![trigger r.visited@.contains(p), succs_of(cfg, p).contains(s)]
        r.visited@.contains(p) && succs_of(cfg, p).contains(s) && cfg.blocks@.contains_key(s)
        ==> r.visited@.contains(s)
}

/// Every visited block's in-state is what its predecessors' out-states
/// (or the entry state) give: the states are a fixpoint of the analysis.
pub open spec fn settled(cfg: Cfg, entry: StateModel, r: DataflowResult) -> bool {
    forall|b: BlockId| #[trigger] r.visited@.contains(b)
        ==> r.in_states@[b].model() == incoming_for(cfg, models(r.out_states@), entry, b)
}

// ─── The run itself ─────────────────────────────────────────────────

/// Where a run stands: the states recorded so far, the findings so far in
/// the order they were made, the blocks visited (and in what order they
/// were first reached), the worklist, and the number of steps taken.
pub struct RunModel {
    pub ins: Map<BlockId, StateModel>,
    pub outs: Map<BlockId, StateModel>,
    pub diags: Seq<(Seq<char>, BlockId, bool)>,
    pub visited: Set<BlockId>,
    pub order: Seq<BlockId>,
    pub wl: Seq<BlockId>,
    pub steps: nat,
}

/// `wl` with each of `ss`, in order, added at the end unless already there.
pub open spec fn enqueue(wl: Seq<BlockId>, ss: Seq<BlockId>) -> Seq<BlockId>
    decreases ss.len(),
{
    if ss.len() == 0 {
        wl
    } else {
        let w = enqueue(wl, ss.drop_last());
        if w.contains(ss.last()) { w } else { w.push(ss.last()) }
    }
}

/// One step of the worklist loop: the head is taken; if the graph has that
/// block, its incoming state is recorded, the transfer runs, its findings
/// are added, and, when its out-state changed, the new out-state is
/// recorded and its successors are queued.
pub open spec fn step<T: Transfer>(t: T, cfg: Cfg, em: StateModel, m: RunModel) -> RunModel {
    let x = m.wl[0];
    let rest = m.wl.drop_first();
    if !cfg.blocks@.contains_key(x) {
        RunModel { wl: rest, steps: m.steps + 1, ..m }
    } else {
        let inc = incoming_for(cfg, m.outs, em, x);
        let out = t.outcome(cfg.blocks@[x], inc);
        let changed = !m.outs.contains_key(x) || m.outs[x] != out.0;
        RunModel {
            ins: m.ins.insert(x, inc),
            outs: if changed { m.outs.insert(x, out.0) } else { m.outs },
            diags: m.diags + out.1,
            visited: m.visited.insert(x),
            order: if m.visited.contains(x) { m.order } else { m.order.push(x) },
            wl: if changed { enqueue(rest, succs_of(cfg, x)) } else { rest },
            steps: m.steps + 1,
        }
    }
}

/// The loop from `m`, for at most `fuel` steps or until the worklist is empty.
pub open spec fn run_model<T: Transfer>(t: T, cfg: Cfg, em: StateModel, m: RunModel, fuel: nat) -> RunModel
    decreases fuel,
{
    if m.wl.len() == 0 || fuel == 0 {
        m
    } else {
        run_model(t, cfg, em, step(t, cfg, em, m), (fuel - 1) as nat)
    }
}

/// A run's start: nothing recorded, the entry block queued.
pub open spec fn start_model(cfg: Cfg) -> RunModel {
    RunModel {
        ins: Map::empty(),
        outs: Map::empty(),
        diags: Seq::empty(),
        visited: Set::empty(),
        order: Seq::empty(),
        wl: seq![cfg.entry],
        steps: 0,
    }
}

/// The run, at most `usize::MAX` steps of the loop from the start.
pub open spec fn full_run<T: Transfer>(t: T, cfg: Cfg, em: StateModel) -> RunModel {
    run_model(t, cfg, em, start_model(cfg), usize::MAX as nat)
}

/// Where a result and a worklist stand after `n` steps, as a run model.
pub open spec fn model_of(r: DataflowResult, wl: Seq<BlockId>, n: nat) -> RunModel {
    RunModel {
        ins: models(r.in_states@),
        outs: models(r.out_states@),
        diags: diag_models(r.diagnostics@),
        visited: r.visited@,
        order: r.order@,
        wl,
        steps: n,
    }
}

/// `r` is exactly what the run from `em` gives: its states, every finding
/// of every visit in the order they were made, the visited blocks, the
/// number of steps, and whether the worklist ran empty.
pub open spec fn is_run<T: Transfer>(t: T, cfg: Cfg, em: StateModel, r: DataflowResult) -> bool {
    let m = full_run(t, cfg, em);
    &&& models(r.in_states@) == m.ins
    &&& models(r.out_states@) == m.outs
    &&& diag_models(r.diagnostics@) == m.diags
    &&& r.visited@ == m.visited
    &&& r.order@ == m.order
    &&& r.steps == m.steps
    &&& r.converged == (m.wl.len() == 0)
}

// ─── The model of a run over every function ─────────────────────────

/// The entry state of a function with parameters `ps`: each declared,
/// initialized and owned, in order.
pub open spec fn params_entry(ps: Seq<Seq<char>>) -> StateModel
    decreases ps.len(),
{
    if ps.len() == 0 {
        empty_state()
    } else {
        declared(params_entry(ps.drop_last()), ps.last(), available())
    }
}

/// What a run of one function promises.
pub open spec fn function_run<T: Transfer>(t: T, f: FunctionCfg, r: DataflowResult) -> bool {
    &&& is_run(t, f.cfg, params_entry(string_views(f.params@)), r)
    &&& started(f.cfg, r)
    &&& consistent(t, f.cfg, r)
    &&& ordered(f.cfg, r)
    &&& (r.converged ==> closed(f.cfg, r))
    &&& (r.converged && edges_agree(f.cfg) ==> settled(f.cfg, params_entry(string_views(f.params@)), r))
}

/// A run visits the entry block where the graph has it, and stops short
/// of an empty worklist only when its step budget is spent.
pub open spec fn started(cfg: Cfg, r: DataflowResult) -> bool {
    &&& (cfg.blocks@.contains_key(cfg.entry) ==> r.visited@.contains(cfg.entry))
    &&& (!r.converged ==> r.steps == usize::MAX)
}

/// `a + b`, or `usize::MAX` where that is more.
pub open spec fn capped_sum(a: int, b: int) -> int {
    if a + b <= usize::MAX { a + b } else { usize::MAX as int }
}

/// The steps of the runs `rs` together, capped at `usize::MAX`.
pub open spec fn total_steps(rs: Seq<DataflowResult>) -> int
    decreases rs.len(),
{
    if rs.len() == 0 { 0 } else { capped_sum(total_steps(rs.drop_last()), rs.last().steps as int) }
}

/// `rs` are runs of the functions `fs`, one each, in order.
pub open spec fn runs_of<T: Transfer>(t: T, fs: Seq<FunctionCfg>, rs: Seq<DataflowResult>) -> bool {
    &&& rs.len() == fs.len()
    &&& forall|i: int| 0 <= i < rs.len() ==> #[trigger] function_run(t, fs[i], rs[i])
}

/// The in-states of the runs, a later run's state taking the place of an
/// earlier one's for the same block.
pub open spec fn merged_in(rs: Seq<DataflowResult>) -> Map<BlockId, SemanticState>
    decreases rs.len(),
{
    if rs.len() == 0 { Map::empty() } else { merged_in(rs.drop_last()).union_prefer_right(rs.last().in_states@) }
}

/// The out-states of the runs, later runs taking precedence.
pub open spec fn merged_out(rs: Seq<DataflowResult>) -> Map<BlockId, SemanticState>
    decreases rs.len(),
{
    if rs.len() == 0 { Map::empty() } else { merged_out(rs.drop_last()).union_prefer_right(rs.last().out_states@) }
}

/// The blocks visited by any of the runs.
pub open spec fn merged_visited(rs: Seq<DataflowResult>) -> Set<BlockId>
    decreases rs.len(),
{
    if rs.len() == 0 { Set::empty() } else { merged_visited(rs.drop_last()).union(rs.last().visited@) }
}

/// The visit orders of the runs, one after the other.
pub open spec fn merged_order(rs: Seq<DataflowResult>) -> Seq<BlockId>
    decreases rs.len(),
{
    if rs.len() == 0 { Seq::empty() } else { merged_order(rs.drop_last()) + rs.last().order@ }
}

/// Whether every run converged.
pub open spec fn all_converged(rs: Seq<DataflowResult>) -> bool
    decreases rs.len(),
{
    if rs.len() == 0 { true } else { all_converged(rs.drop_last()) && rs.last().converged }
}

pub open spec fn fn_names(fs: Seq<FunctionCfg>) -> Seq<Seq<char>> {
    Seq::new(fs.len(), |i: int| fs[i].name@)
}

/// A finding with the name of the function it was found in.
pub type Tagged = (Seq<char>, (Seq<char>, BlockId, bool));

/// Every finding of the runs, in order, with its function's name.
pub open spec fn tagged(names: Seq<Seq<char>>, rs: Seq<DataflowResult>) -> Seq<Tagged>
    decreases rs.len(),
{
    if rs.len() == 0 {
        Seq::empty()
    } else {
        tagged(names, rs.drop_last()) + tag_all(names[rs.len() - 1], diag_models(rs.last().diagnostics@))
    }
}

pub open spec fn tag_all(name: Seq<char>, ds: Seq<(Seq<char>, BlockId, bool)>) -> Seq<Tagged> {
    Seq::new(ds.len(), |i: int| (name, ds[i]))
}

/// What makes two findings the same: function, block and message.
pub open spec fn finding_key(e: Tagged) -> (Seq<char>, BlockId, Seq<char>) {
    (e.0, e.1.1, e.1.0)
}

pub open spec fn keys(s: Seq<Tagged>) -> Seq<(Seq<char>, BlockId, Seq<char>)> {
    Seq::new(s.len(), |i: int| finding_key(s[i]))
}

/// The findings of `s` whose key no earlier finding has.
pub open spec fn first_seen(s: Seq<Tagged>) -> Seq<Tagged>
    decreases s.len(),
{
    if s.len() == 0 {
        Seq::empty()
    } else if keys(s.drop_last()).contains(finding_key(s.last())) {
        first_seen(s.drop_last())
    } else {
        first_seen(s.drop_last()).push(s.last())
    }
}

/// A finding as reported: its message prefixed by `[name] `.
pub open spec fn labelled(e: Tagged) -> (Seq<char>, BlockId, bool) {
    (seq!['['] + e.0 + seq![']', ' '] + e.1.0, e.1.1, e.1.2)
}

pub open spec fn all_labelled(s: Seq<Tagged>) -> Seq<(Seq<char>, BlockId, bool)> {
    Seq::new(s.len(), |i: int| labelled(s[i]))
}

/// The result of running every function of `fs` in turn: their runs are
/// `rs`, their states and visits are merged, and each finding is reported
/// once per function, block and message, labelled with its function.
pub open spec fn merged_runs(fs: Seq<FunctionCfg>, rs: Seq<DataflowResult>, r: DataflowResult) -> bool {
    &&& r.in_states@ == merged_in(rs)
    &&& r.out_states@ == merged_out(rs)
    &&& r.visited@ == merged_visited(rs)
    &&& r.order@ == merged_order(rs)
    &&& r.converged == all_converged(rs)
    &&& r.steps == total_steps(rs)
    &&& diag_models(r.diagnostics@) == all_labelled(first_seen(tagged(fn_names(fs), rs)))
}

// ─── Loop invariants of the worklist ────────────────────────────────

spec fn closed_but(cfg: Cfg, visited: Set<BlockId>, wl: Seq<BlockId>) -> bool {
    &&& (cfg.blocks@.contains_key(cfg.entry) ==> wl.contains(cfg.entry) || visited.contains(cfg.entry))
    &&& forall|p: BlockId, s: BlockId| #![trigger visited.contains(p), succs_of(cfg, p).contains(s)]
        visited.contains(p) && succs_of(cfg, p).contains(s) && cfg.blocks@.contains_key(s)
        ==> wl.contains(s) || visited.contains(s)
}

spec fn settled_but(cfg: Cfg, entry: StateModel, ins: Map<BlockId, SemanticState>, outs: Map<BlockId, SemanticState>, visited: Set<BlockId>, wl: Seq<BlockId>) -> bool {
    forall|b: BlockId| #[trigger] visited.contains(b) && !wl.contains(b)
        ==> ins[b].model() == incoming_for(cfg, models(outs), entry, b)
}

spec fn pending_reached(cfg: Cfg, visited: Set<BlockId>, wl: Seq<BlockId>) -> bool {
    forall|k: int| 0 <= k < wl.len() ==> (#[trigger] wl[k] == cfg.entry
        || exists|p: BlockId| visited.contains(p) && #[trigger] succs_of(cfg, p).contains(wl[k]))
}

spec fn run_inv<T: Transfer>(t: T, cfg: Cfg, entry: StateModel, r: DataflowResult, wl: Seq<BlockId>) -> bool {
    &&& consistent(t, cfg, r)
    &&& ordered(cfg, r)
    &&& closed_but(cfg, r.visited@, wl)
    &&& pending_reached(cfg, r.visited@, wl)
    &&& edges_agree(cfg) ==> settled_but(cfg, entry, r.in_states@, r.out_states@, r.visited@, wl)
}

// ─── Lemmas ─────────────────────────────────────────────────────────

proof fn lemma_joined_from_other(outs: Map<BlockId, StateModel>, x: BlockId, v: StateModel, preds: Seq<BlockId>)
    requires
        !preds.contains(x),
    ensures
        joined_from(outs.insert(x, v), preds) == joined_from(outs, preds),
    decreases preds.len(),
{
    if preds.len() > 0 {
        assert(!preds.drop_last().contains(x)) by {
            if preds.drop_last().contains(x) {
                let k = choose|k: int| 0 <= k < preds.drop_last().len() && preds.drop_last()[k] == x;
                assert(preds[k] == x);
            }
        }
        lemma_joined_from_other(outs, x, v, preds.drop_last());
        assert(preds.last() != x) by {
            assert(preds[preds.len() - 1] == preds.last());
        }
    }
}

proof fn lemma_incoming_other(cfg: Cfg, outs: Map<BlockId, StateModel>, x: BlockId, v: StateModel, entry: StateModel, b: BlockId)
    requires
        edges_agree(cfg),
        !succs_of(cfg, x).contains(b),
    ensures
        incoming_for(cfg, outs.insert(x, v), entry, b) == incoming_for(cfg, outs, entry, b),
{
    assert(!preds_of(cfg, b).contains(x));
    lemma_joined_from_other(outs, x, v, preds_of(cfg, b));
}

proof fn lemma_models_insert(m: Map<BlockId, SemanticState>, x: BlockId, s: SemanticState)
    ensures
        models(m.insert(x, s)) == models(m).insert(x, s.model()),
{
    assert(models(m.insert(x, s)) =~= models(m).insert(x, s.model()));
}

proof fn lemma_diag_models_append(a: Seq<DataflowDiagnostic>, b: Seq<DataflowDiagnostic>)
    ensures
        diag_models(a + b) == diag_models(a) + diag_models(b),
{
    assert(diag_models(a + b) =~= diag_models(a) + diag_models(b));
}

/// What stays in the worklist after its head is taken.
proof fn lemma_pop(wl: Seq<BlockId>, s: BlockId)
    requires
        wl.len() > 0,
    ensures
        wl.contains(s) && s != wl[0] ==> wl.drop_first().contains(s),
        wl.drop_first().contains(s) ==> wl.contains(s),
{
    if wl.contains(s) && s != wl[0] {
        let k = choose|k: int| 0 <= k < wl.len() && wl[k] == s;
        assert(wl.drop_first()[k - 1] == s);
    }
    if wl.drop_first().contains(s) {
        let k = choose|k: int| 0 <= k < wl.drop_first().len() && wl.drop_first()[k] == s;
        assert(wl[k + 1] == s);
    }
}

/// A block that is not in the graph leaves the run as it was.
proof fn lemma_skip<T: Transfer>(t: T, cfg: Cfg, entry: StateModel, r: DataflowResult, wl: Seq<BlockId>)
    requires
        wl.len() > 0,
        !cfg.blocks@.contains_key(wl[0]),
        run_inv(t, cfg, entry, r, wl),
    ensures
        run_inv(t, cfg, entry, r, wl.drop_first()),
{
    let rest = wl.drop_first();
    assert forall|s: BlockId| cfg.blocks@.contains_key(s) && wl.contains(s) implies rest.contains(s) by {
        lemma_pop(wl, s);
    }
    assert forall|b: BlockId| r.visited@.contains(b) && !rest.contains(b) implies !wl.contains(b) by {
        lemma_pop(wl, b);
    }
    assert forall|k: int| 0 <= k < rest.len() implies (#[trigger] rest[k] == cfg.entry
        || exists|p: BlockId| r.visited@.contains(p) && #[trigger] succs_of(cfg, p).contains(rest[k])) by {
        assert(rest[k] == wl[k + 1]);
    }
}

/// What one visit of block `x` (the worklist's head, a block of the graph)
/// does to the run: `inc` is the state entering it and `found` what the
/// transfer reported.
spec fn step_facts<T: Transfer>(t: T, cfg: Cfg, em: StateModel, r0: DataflowResult, r1: DataflowResult,
    wl0: Seq<BlockId>, wl2: Seq<BlockId>, x: BlockId, inc: StateModel, found: Seq<DataflowDiagnostic>, changed: bool) -> bool {
    let out = t.outcome(cfg.blocks@[x], inc);
    &&& wl0.len() > 0
    &&& x == wl0[0]
    &&& cfg.blocks@.contains_key(x)
    &&& inc == incoming_for(cfg, models(r0.out_states@), em, x)
    &&& r1.in_states@ == r0.in_states@.insert(x, r1.in_states@[x])
    &&& r1.in_states@[x].model() == inc
    &&& r1.in_states@[x].wf()
    &&& diag_models(found) == out.1
    &&& r1.diagnostics@ == r0.diagnostics@ + found
    &&& changed == (!r0.out_states@.contains_key(x) || r0.out_states@[x].model() != out.0)
    &&& (changed ==> {
        &&& wl2 == enqueue(wl0.drop_first(), succs_of(cfg, x))
        &&& r1.out_states@ == r0.out_states@.insert(x, r1.out_states@[x])
        &&& r1.out_states@[x].wf()
        &&& r1.out_states@[x].model() == out.0
        &&& wl2.len() >= wl0.len() - 1
        &&& wl2.subrange(0, wl0.len() - 1) == wl0.drop_first()
        &&& (forall|k: int| wl0.len() - 1 <= k < wl2.len() ==> #[trigger] succs_of(cfg, x).contains(wl2[k]))
        &&& (forall|s: BlockId| #[trigger] succs_of(cfg, x).contains(s) ==> wl2.contains(s))
    })
    &&& (!changed ==> {
        &&& r1.out_states@ == r0.out_states@
        &&& r0.out_states@.contains_key(x)
        &&& r0.out_states@[x].model() == out.0
        &&& wl2 == wl0.drop_first()
    })
    &&& (!r0.out_states@.contains_key(x) ==> changed)
    &&& r1.visited@ == r0.visited@.insert(x)
    &&& r1.order@ == (if r0.visited@.contains(x) { r0.order@ } else { r0.order@.push(x) })
}

/// One visit, as a step of the run model.
proof fn lemma_step_model<T: Transfer>(t: T, cfg: Cfg, em: StateModel, r0: DataflowResult, r1: DataflowResult,
    wl0: Seq<BlockId>, wl2: Seq<BlockId>, x: BlockId, inc: StateModel, found: Seq<DataflowDiagnostic>, changed: bool, n: nat)
    requires
        step_facts(t, cfg, em, r0, r1, wl0, wl2, x, inc, found, changed),
    ensures
        step(t, cfg, em, model_of(r0, wl0, n)) == model_of(r1, wl2, n + 1),
{
    let m = model_of(r0, wl0, n);
    let out = t.outcome(cfg.blocks@[x], inc);
    lemma_models_insert(r0.in_states@, x, r1.in_states@[x]);
    if changed {
        lemma_models_insert(r0.out_states@, x, r1.out_states@[x]);
    }
    lemma_diag_models_append(r0.diagnostics@, found);
    if r0.out_states@.contains_key(x) {
        assert(models(r0.out_states@)[x] == r0.out_states@[x].model());
    }
    let st = step(t, cfg, em, m);
    let mm = model_of(r1, wl2, n + 1);
    assert(st.ins == mm.ins);
    assert(st.outs == mm.outs);
    assert(st.diags == mm.diags);
    assert(st.visited == mm.visited);
    assert(st.order == mm.order);
    assert(st.wl == mm.wl);
}

/// A block that is not in the graph, as a step of the run model.
proof fn lemma_skip_model<T: Transfer>(t: T, cfg: Cfg, em: StateModel, r: DataflowResult, wl: Seq<BlockId>, n: nat)
    requires
        wl.len() > 0,
        !cfg.blocks@.contains_key(wl[0]),
    ensures
        step(t, cfg, em, model_of(r, wl, n)) == model_of(r, wl.drop_first(), n + 1),
{
}

proof fn lemma_step_rest(wl0: Seq<BlockId>, wl2: Seq<BlockId>, changed: bool, s: BlockId)
    requires
        wl0.len() > 0,
        changed ==> wl2.len() >= wl0.len() - 1 && wl2.subrange(0, wl0.len() - 1) == wl0.drop_first(),
        !changed ==> wl2 == wl0.drop_first(),
    ensures
        wl0.contains(s) && s != wl0[0] ==> wl2.contains(s),
        forall|k: int| 0 <= k < wl0.len() - 1 ==> wl2[k] == wl0[k + 1],
{
    lemma_pop(wl0, s);
    if changed {
        assert forall|k: int| 0 <= k < wl0.len() - 1 implies wl2[k] == wl0[k + 1] by {
            assert(wl2.subrange(0, wl0.len() - 1)[k] == wl0.drop_first()[k]);
        }
        if wl0.contains(s) && s != wl0[0] {
            let k = choose|k: int| 0 <= k < wl0.drop_first().len() && wl0.drop_first()[k] == s;
            assert(wl2.subrange(0, wl0.len() - 1)[k] == s);
            assert(wl2[k] == s);
        }
    }
}

#[verifier::rlimit(60)]
#[verifier::spinoff_prover]
proof fn lemma_step_consistent<T: Transfer>(t: T, cfg: Cfg, em: StateModel, r0: DataflowResult, r1: DataflowResult,
    wl0: Seq<BlockId>, wl2: Seq<BlockId>, x: BlockId, inc: StateModel, found: Seq<DataflowDiagnostic>, changed: bool)
    requires
        run_inv(t, cfg, em, r0, wl0),
        step_facts(t, cfg, em, r0, r1, wl0, wl2, x, inc, found, changed),
    ensures
        consistent(t, cfg, r1),
{
    let out = t.outcome(cfg.blocks@[x], inc);
    let d0 = diag_models(r0.diagnostics@);
    lemma_diag_models_append(r0.diagnostics@, found);
    assert(diag_models(r1.diagnostics@) == d0 + out.1);
    assert(r1.in_states@.dom() =~= r1.visited@);
    if !changed {
        assert(r0.visited@.contains(x));
    }
    assert(r1.out_states@.dom() =~= r1.visited@);
    assert forall|b: BlockId| #[trigger] r1.visited@.contains(b) implies {
        &&& cfg.blocks@.contains_key(b)
        &&& r1.in_states@[b].wf()
        &&& r1.out_states@[b].wf()
        &&& r1.out_states@[b].model() == t.outcome(cfg.blocks@[b], r1.in_states@[b].model()).0
    } by {
        if b != x {
            assert(r0.visited@.contains(b));
        } else if !changed {
            assert(r0.visited@.contains(x));
        }
    }
    assert forall|b: BlockId, k: int| #![trigger t.outcome(cfg.blocks@[b], r1.in_states@[b].model()).1[k]]
        r1.visited@.contains(b) && 0 <= k < t.outcome(cfg.blocks@[b], r1.in_states@[b].model()).1.len()
        implies diag_models(r1.diagnostics@).contains(t.outcome(cfg.blocks@[b], r1.in_states@[b].model()).1[k]) by {
        if b == x {
            assert((d0 + out.1)[d0.len() + k] == out.1[k]);
        } else {
            assert(r0.visited@.contains(b));
            assert(r1.in_states@[b] == r0.in_states@[b]);
            let e = t.outcome(cfg.blocks@[b], r0.in_states@[b].model()).1[k];
            assert(d0.contains(e));
            let j = choose|j: int| 0 <= j < d0.len() && d0[j] == e;
            assert((d0 + out.1)[j] == e);
        }
    }
}

#[verifier::rlimit(60)]
#[verifier::spinoff_prover]
proof fn lemma_step_ordered<T: Transfer>(t: T, cfg: Cfg, em: StateModel, r0: DataflowResult, r1: DataflowResult,
    wl0: Seq<BlockId>, wl2: Seq<BlockId>, x: BlockId, inc: StateModel, found: Seq<DataflowDiagnostic>, changed: bool)
    requires
        run_inv(t, cfg, em, r0, wl0),
        step_facts(t, cfg, em, r0, r1, wl0, wl2, x, inc, found, changed),
    ensures
        ordered(cfg, r1),
{
    if r0.visited@.contains(x) {
        assert(r1.visited@ =~= r0.visited@);
    } else {
        let o = r0.order@;
        assert(r1.order@.to_set() =~= o.to_set().insert(x));
        assert(!o.contains(x));
        assert forall|i: int| 0 <= i < r1.order@.len() implies #[trigger] reached_from_earlier(cfg, r1.order@, i) by {
            if i < o.len() {
                assert(reached_from_earlier(cfg, o, i));
                if o[i] != cfg.entry {
                    let j = choose|j: int| 0 <= j < i && #[trigger] succs_of(cfg, o[j]).contains(o[i]);
                    assert(r1.order@[j] == o[j]);
                }
            } else {
                assert(r1.order@[i] == x);
                assert(wl0[0] == x);
                if x != cfg.entry {
                    let p = choose|p: BlockId| r0.visited@.contains(p) && #[trigger] succs_of(cfg, p).contains(wl0[0]);
                    assert(o.to_set().contains(p));
                    let j = choose|j: int| 0 <= j < o.len() && o[j] == p;
                    assert(r1.order@[j] == p);
                    assert(succs_of(cfg, r1.order@[j]).contains(r1.order@[i]));
                }
            }
        }
    }
}

#[verifier::rlimit(60)]
#[verifier::spinoff_prover]
proof fn lemma_step_frontier<T: Transfer>(t: T, cfg: Cfg, em: StateModel, r0: DataflowResult, r1: DataflowResult,
    wl0: Seq<BlockId>, wl2: Seq<BlockId>, x: BlockId, inc: StateModel, found: Seq<DataflowDiagnostic>, changed: bool)
    requires
        run_inv(t, cfg, em, r0, wl0),
        step_facts(t, cfg, em, r0, r1, wl0, wl2, x, inc, found, changed),
    ensures
        closed_but(cfg, r1.visited@, wl2),
        pending_reached(cfg, r1.visited@, wl2),
{
    lemma_step_rest(wl0, wl2, changed, cfg.entry);
    assert forall|p: BlockId, s: BlockId| #![trigger r1.visited@.contains(p), succs_of(cfg, p).contains(s)]
        r1.visited@.contains(p) && succs_of(cfg, p).contains(s) && cfg.blocks@.contains_key(s)
        implies wl2.contains(s) || r1.visited@.contains(s) by {
        lemma_step_rest(wl0, wl2, changed, s);
        if p == x && !changed {
            assert(r0.visited@.contains(x));
        }
        if p != x {
            assert(r0.visited@.contains(p));
        }
    }
    assert forall|k: int| 0 <= k < wl2.len() implies (#[trigger] wl2[k] == cfg.entry
        || exists|p: BlockId| r1.visited@.contains(p) && #[trigger] succs_of(cfg, p).contains(wl2[k])) by {
        lemma_step_rest(wl0, wl2, changed, cfg.entry);
        if k < wl0.len() - 1 {
            assert(wl2[k] == wl0[k + 1]);
            if wl0[k + 1] != cfg.entry {
                let p = choose|p: BlockId| r0.visited@.contains(p) && #[trigger] succs_of(cfg, p).contains(wl0[k + 1]);
                assert(r1.visited@.contains(p));
            }
        } else {
            assert(changed);
            assert(succs_of(cfg, x).contains(wl2[k]));
            assert(r1.visited@.contains(x));
        }
    }
}

#[verifier::rlimit(60)]
#[verifier::spinoff_prover]
proof fn lemma_step_settled<T: Transfer>(t: T, cfg: Cfg, em: StateModel, r0: DataflowResult, r1: DataflowResult,
    wl0: Seq<BlockId>, wl2: Seq<BlockId>, x: BlockId, inc: StateModel, found: Seq<DataflowDiagnostic>, changed: bool)
    requires
        edges_agree(cfg),
        run_inv(t, cfg, em, r0, wl0),
        step_facts(t, cfg, em, r0, r1, wl0, wl2, x, inc, found, changed),
    ensures
        settled_but(cfg, em, r1.in_states@, r1.out_states@, r1.visited@, wl2),
{
    let o0 = models(r0.out_states@);
    let o1 = models(r1.out_states@);
    if changed {
        lemma_models_insert(r0.out_states@, x, r1.out_states@[x]);
    }
    assert forall|b: BlockId| #[trigger] r1.visited@.contains(b) && !wl2.contains(b)
        implies r1.in_states@[b].model() == incoming_for(cfg, o1, em, b) by {
        lemma_step_rest(wl0, wl2, changed, b);
        if changed {
            assert(!succs_of(cfg, x).contains(b));
            lemma_incoming_other(cfg, o0, x, r1.out_states@[x].model(), em, b);
        }
        if b != x {
            assert(r0.visited@.contains(b));
            assert(!wl0.contains(b));
        }
    }
}

// ─── The engine ─────────────────────────────────────────────────────

/// Whether `x` is among `list`.
fn listed(list: &Vec<BlockId>, x: BlockId) -> (r: bool)
    ensures
        r == list@.contains(x),
{
    let mut i: usize = 0;
    while i < list.len()
        invariant
            0 <= i <= list@.len(),
            forall|k: int| 0 <= k < i ==> list@[k] != x,
        decreases list@.len() - i,
    {
        if list[i] == x {
            return true;
        }
        i = i + 1;
    }
    false
}

/// The state entering non-entry block `x`: the join of the out-states of
/// its predecessors, in order, or the empty state when none has one.
fn join_preds(cfg: &Cfg, outs: &HashMap<BlockId, SemanticState>, x: BlockId) -> (r: SemanticState)
    requires
        forall|b: BlockId| #[trigger] outs@.contains_key(b) ==> outs@[b].wf(),
    ensures
        r.wf(),
        r.model() == match joined_from(models(outs@), preds_of(*cfg, x)) {
            Some(j) => j,
            None => empty_state(),
        },
{
    let preds = cfg.predecessors(x);
    let ghost om = models(outs@);
    let mut joined: Option<SemanticState> = None;
    let mut i: usize = 0;
    while i < preds.len()
        invariant
            0 <= i <= preds@.len(),
            om == models(outs@),
            forall|b: BlockId| #[trigger] outs@.contains_key(b) ==> outs@[b].wf(),
            match joined {
                None => joined_from(om, preds@.take(i as int)) is None,
                Some(j) => j.wf() && joined_from(om, preds@.take(i as int)) == Some(j.model()),
            },
        decreases preds@.len() - i,
    {
        let p = preds[i];
        assert(preds@.take(i + 1).drop_last() =~= preds@.take(i as int));
        assert(preds@.take(i + 1).last() == p);
        match outs.get(&p) {
            Some(out) => {
                let next = match joined {
                    None => out.copy(),
                    Some(j) => SemanticState::join(&j, out),
                };
                joined = Some(next);
            },
            None => {},
        }
        i = i + 1;
    }
    assert(preds@.take(preds@.len() as int) =~= preds@);
    match joined {
        Some(j) => j,
        None => SemanticState::new(),
    }
}

/// The keys of findings already reported.
pub open spec fn key_views(v: Seq<(String, BlockId, String)>) -> Seq<(Seq<char>, BlockId, Seq<char>)> {
    Seq::new(v.len(), |i: int| (v[i].0@, v[i].1, v[i].2@))
}

/// The entry state of a function: its parameters declared, initialized
/// and owned.
fn entry_state_for(params: &Vec<String>) -> (r: SemanticState)
    ensures
        r.wf(),
        r.model() == params_entry(string_views(params@)),
{
    let mut st = SemanticState::new();
    let mut i: usize = 0;
    assert(string_views(params@.take(0)) =~= Seq::<Seq<char>>::empty());
    while i < params.len()
        invariant
            0 <= i <= params@.len(),
            st.wf(),
            st.model() == params_entry(string_views(params@.take(i as int))),
        decreases params@.len() - i,
    {
        proof {
            let v = string_views(params@.take(i + 1));
            assert(v.drop_last() =~= string_views(params@.take(i as int)));
            assert(v.last() == params@[i as int]@);
        }
        st.declare(&params[i], VarState::available());
        i = i + 1;
    }
    assert(params@.take(params@.len() as int) =~= params@);
    st
}

/// Whether `(name, block, message)` is among `seen`.
fn seen_before(seen: &Vec<(String, BlockId, String)>, name: &String, block: BlockId, message: &String) -> (r: bool)
    ensures
        r == key_views(seen@).contains((name@, block, message@)),
{
    let mut i: usize = 0;
    while i < seen.len()
        invariant
            0 <= i <= seen@.len(),
            forall|k: int| 0 <= k < i ==> key_views(seen@)[k] != (name@, block, message@),
        decreases seen@.len() - i,
    {
        let e = &seen[i];
        if e.0 == *name && e.1 == block && e.2 == *message {
            assert(key_views(seen@)[i as int] == (name@, block, message@));
            return true;
        }
        i = i + 1;
    }
    assert forall|k: int| 0 <= k < key_views(seen@).len() implies key_views(seen@)[k] != (name@, block, message@) by {}
    false
}

proof fn lemma_first_seen_push(s: Seq<Tagged>, e: Tagged)
    ensures
        first_seen(s.push(e)) == (if keys(s).contains(finding_key(e)) { first_seen(s) } else { first_seen(s).push(e) }),
        keys(s.push(e)) == keys(s).push(finding_key(e)),
{
    assert(s.push(e).drop_last() =~= s);
    assert(keys(s.push(e)) =~= keys(s).push(finding_key(e)));
}

/// Adds one function's run to `acc`: its states and visits, and its
/// findings not reported before for the same function, block and message,
/// labelled `[name] `.
#[verifier::rlimit(60)]
#[verifier::spinoff_prover]
fn merge_into(acc: &mut DataflowResult, seen: &mut Vec<(String, BlockId, String)>, name: &String, result: DataflowResult, Ghost(t0): Ghost<Seq<Tagged>>)
    requires
        result.in_states@.dom() == result.order@.to_set(),
        result.out_states@.dom() == result.order@.to_set(),
        result.visited@ == result.order@.to_set(),
        result.order@.no_duplicates(),
        key_views(old(seen)@) == keys(t0),
        diag_models(old(acc).diagnostics@) == all_labelled(first_seen(t0)),
    ensures
        final(acc).in_states@ == old(acc).in_states@.union_prefer_right(result.in_states@),
        final(acc).out_states@ == old(acc).out_states@.union_prefer_right(result.out_states@),
        final(acc).visited@ == old(acc).visited@.union(result.visited@),
        final(acc).order@ == old(acc).order@ + result.order@,
        final(acc).converged == (old(acc).converged && result.converged),
        final(acc).steps == capped_sum(old(acc).steps as int, result.steps as int),
        key_views(final(seen)@) == keys(t0 + tag_all(name@, diag_models(result.diagnostics@))),
        diag_models(final(acc).diagnostics@) == all_labelled(first_seen(t0 + tag_all(name@, diag_models(result.diagnostics@)))),
{
    let ghost a0 = *acc;
    let ghost r0 = result;
    let mut result = result;
    let mut j: usize = 0;
    while j < result.order.len()
        invariant
            0 <= j <= result.order@.len(),
            result.order@ == r0.order@,
            result.diagnostics@ == r0.diagnostics@,
            result.converged == r0.converged,
            r0.in_states@.dom() == r0.order@.to_set(),
            r0.out_states@.dom() == r0.order@.to_set(),
            r0.order@.no_duplicates(),
            acc.in_states@ == a0.in_states@.union_prefer_right(r0.in_states@.restrict(r0.order@.take(j as int).to_set())),
            acc.out_states@ == a0.out_states@.union_prefer_right(r0.out_states@.restrict(r0.order@.take(j as int).to_set())),
            result.in_states@ == r0.in_states@.remove_keys(r0.order@.take(j as int).to_set()),
            result.out_states@ == r0.out_states@.remove_keys(r0.order@.take(j as int).to_set()),
            acc.visited@ == a0.visited@.union(r0.order@.take(j as int).to_set()),
            acc.order@ == a0.order@ + r0.order@.take(j as int),
            acc.diagnostics@ == a0.diagnostics@,
            acc.converged == a0.converged,
            acc.steps == a0.steps,
            result.steps == r0.steps,
        decreases r0.order@.len() - j,
    {
        let id = result.order[j];
        proof {
            assert(r0.order@.take(j + 1) =~= r0.order@.take(j as int).push(id));
            assert(r0.order@.take(j + 1).to_set() =~= r0.order@.take(j as int).to_set().insert(id));
            assert(!r0.order@.take(j as int).contains(id)) by {
                if r0.order@.take(j as int).contains(id) {
                    let k = choose|k: int| 0 <= k < j && r0.order@.take(j as int)[k] == id;
                    assert(r0.order@[k] == r0.order@[j as int]);
                }
            }
            assert(r0.order@.to_set().contains(id));
        }
        let st = result.in_states.remove(&id);
        match st {
            Some(st) => {
                acc.in_states.insert(id, st);
            },
            None => {},
        }
        let st = result.out_states.remove(&id);
        match st {
            Some(st) => {
                acc.out_states.insert(id, st);
            },
            None => {},
        }
        acc.visited.insert(id);
        acc.order.push(id);
        j = j + 1;
        proof {
            let done = r0.order@.take(j as int).to_set();
            assert(acc.in_states@ =~= a0.in_states@.union_prefer_right(r0.in_states@.restrict(done)));
            assert(acc.out_states@ =~= a0.out_states@.union_prefer_right(r0.out_states@.restrict(done)));
            assert(result.in_states@ =~= r0.in_states@.remove_keys(done));
            assert(result.out_states@ =~= r0.out_states@.remove_keys(done));
            assert(acc.visited@ =~= a0.visited@.union(done));
            assert(acc.order@ =~= a0.order@ + r0.order@.take(j as int));
        }
    }
    proof {
        assert(r0.order@.take(r0.order@.len() as int) =~= r0.order@);
        assert(r0.in_states@.restrict(r0.order@.to_set()) =~= r0.in_states@);
        assert(r0.out_states@.restrict(r0.order@.to_set()) =~= r0.out_states@);
        assert(r0.visited@ == r0.order@.to_set());
        assert(acc.visited@ =~= a0.visited@.union(r0.visited@));
    }
    acc.converged = acc.converged && result.converged;
    acc.steps = if acc.steps <= usize::MAX - result.steps { acc.steps + result.steps } else { usize::MAX };
    let ghost new = tag_all(name@, diag_models(r0.diagnostics@));
    let mut k: usize = 0;
    assert(t0 + new.take(0) =~= t0);
    while k < result.diagnostics.len()
        invariant
            0 <= k <= r0.diagnostics@.len(),
            result.diagnostics@ == r0.diagnostics@,
            new == tag_all(name@, diag_models(r0.diagnostics@)),
            key_views(seen@) == keys(t0 + new.take(k as int)),
            diag_models(acc.diagnostics@) == all_labelled(first_seen(t0 + new.take(k as int))),
            acc.in_states@ == a0.in_states@.union_prefer_right(r0.in_states@),
            acc.out_states@ == a0.out_states@.union_prefer_right(r0.out_states@),
            acc.visited@ == a0.visited@.union(r0.visited@),
            acc.order@ == a0.order@ + r0.order@,
            acc.converged == (a0.converged && r0.converged),
            acc.steps == capped_sum(a0.steps as int, r0.steps as int),
        decreases r0.diagnostics@.len() - k,
    {
        let d = &result.diagnostics[k];
        let ghost e = new[k as int];
        let ghost before = t0 + new.take(k as int);
        proof {
            assert(t0 + new.take(k + 1) =~= before.push(e));
            lemma_first_seen_push(before, e);
            assert(e == (name@, (d.message@, d.block, d.is_error)));
        }
        let known = seen_before(seen, name, d.block, &d.message);
        let ghost seen0 = seen@;
        seen.push((name.clone(), d.block, d.message.clone()));
        proof {
            assert(key_views(seen@) =~= key_views(seen0).push(finding_key(e)));
        }
        if !known {
            let mut message = text3("[", name, "] ");
            message.append(d.message.as_str());
            let ghost before_acc = acc.diagnostics@;
            acc.diagnostics.push(DataflowDiagnostic { message, block: d.block, is_error: d.is_error });
            proof {
                reveal_strlit("[");
                reveal_strlit("] ");
                assert(diag_model(acc.diagnostics@.last()) == labelled(e));
                assert(diag_models(acc.diagnostics@) =~= diag_models(before_acc).push(labelled(e)));
                assert(all_labelled(first_seen(before).push(e)) =~= all_labelled(first_seen(before)).push(labelled(e)));
            }
        }
        k = k + 1;
    }
    assert(new.take(new.len() as int) =~= new);
}

impl<T: Transfer> DataflowEngine<T> {
    pub fn new(transfer: T) -> (r: Self)
        ensures
            r.transfer == transfer,
    {
        DataflowEngine { transfer }
    }

    /// Runs the analysis over one graph from an empty entry state.
    pub fn run(&self, cfg: &Cfg) -> (r: DataflowResult)
        ensures
            is_run(self.transfer, *cfg, empty_state(), r),
            started(*cfg, r),
            consistent(self.transfer, *cfg, r),
            ordered(*cfg, r),
            r.converged ==> closed(*cfg, r),
            r.converged && edges_agree(*cfg) ==> settled(*cfg, empty_state(), r),
    {
        let entry = SemanticState::new();
        self.run_with_entry(cfg, &entry)
    }

    /// Runs the analysis over every function, each from the entry state
    /// its parameters give, and merges the runs: later functions' states
    /// take the place of earlier ones' for the same block, and each finding
    /// is reported once per function, block and message, labelled
    /// `[function] `.
    pub fn run_all(&self, functions: &[FunctionCfg]) -> (r: DataflowResult)
        ensures
            exists|rs: Seq<DataflowResult>| #[trigger] runs_of(self.transfer, functions@, rs) && merged_runs(functions@, rs, r),
    {
        let mut acc = DataflowResult {
            in_states: HashMap::new(),
            out_states: HashMap::new(),
            diagnostics: Vec::new(),
            visited: HashSet::new(),
            order: Vec::new(),
            converged: true,
            steps: 0,
        };
        let mut seen: Vec<(String, BlockId, String)> = Vec::new();
        let ghost names = fn_names(functions@);
        let ghost mut rs: Seq<DataflowResult> = Seq::empty();
        proof {
            assert(acc.in_states@ =~= Map::<BlockId, SemanticState>::empty());
            assert(acc.out_states@ =~= Map::<BlockId, SemanticState>::empty());
            assert(acc.visited@ =~= Set::<BlockId>::empty());
            assert(acc.order@ =~= Seq::<BlockId>::empty());
            assert(key_views(seen@) =~= keys(Seq::<Tagged>::empty()));
            assert(diag_models(acc.diagnostics@) =~= all_labelled(first_seen(Seq::<Tagged>::empty())));
            assert(functions@.take(0) =~= Seq::<FunctionCfg>::empty());
        }
        let mut i: usize = 0;
        while i < functions.len()
            invariant
                0 <= i <= functions@.len(),
                names == fn_names(functions@),
                rs.len() == i,
                runs_of(self.transfer, functions@.take(i as int), rs),
                acc.in_states@ == merged_in(rs),
                acc.out_states@ == merged_out(rs),
                acc.visited@ == merged_visited(rs),
                acc.order@ == merged_order(rs),
                acc.converged == all_converged(rs),
                acc.steps == total_steps(rs),
                key_views(seen@) == keys(tagged(names, rs)),
                diag_models(acc.diagnostics@) == all_labelled(first_seen(tagged(names, rs))),
            decreases functions@.len() - i,
        {
            let f = &functions[i];
            let entry = entry_state_for(&f.params);
            let result = self.run_with_entry(&f.cfg, &entry);
            let ghost g = result;
            proof {
                assert(result.in_states@.dom() =~= result.order@.to_set());
                assert(result.out_states@.dom() =~= result.order@.to_set());
            }
            merge_into(&mut acc, &mut seen, &f.name, result, Ghost(tagged(names, rs)));
            proof {
                let rs1 = rs.push(g);
                assert(rs1.drop_last() =~= rs);
                assert(rs1.last() == g);
                assert(names[i as int] == f.name@);
                assert(tagged(names, rs1) == tagged(names, rs) + tag_all(f.name@, diag_models(g.diagnostics@)));
                assert forall|k: int| 0 <= k < rs1.len() implies #[trigger] function_run(self.transfer, functions@.take(i + 1)[k], rs1[k]) by {
                    if k < i {
                        assert(functions@.take(i + 1)[k] == functions@.take(i as int)[k]);
                        assert(function_run(self.transfer, functions@.take(i as int)[k], rs[k]));
                    } else {
                        assert(functions@.take(i + 1)[k] == *f);
                    }
                }
                rs = rs1;
            }
            i = i + 1;
        }
        proof {
            assert(functions@.take(functions@.len() as int) =~= functions@);
            assert(runs_of(self.transfer, functions@, rs));
        }
        acc
    }

    /// The worklist loop from an explicit entry state. Blocks are taken
    /// first in, first out; a block's successors are queued (once) whenever
    /// its out-state changes.
    fn run_with_entry(&self, cfg: &Cfg, entry_state: &SemanticState) -> (r: DataflowResult)
        requires
            entry_state.wf(),
        ensures
            is_run(self.transfer, *cfg, entry_state.model(), r),
            started(*cfg, r),
            consistent(self.transfer, *cfg, r),
            ordered(*cfg, r),
            r.converged ==> closed(*cfg, r),
            r.converged && edges_agree(*cfg) ==> settled(*cfg, entry_state.model(), r),
    {
        let ghost em = entry_state.model();
        let mut res = DataflowResult {
            in_states: HashMap::new(),
            out_states: HashMap::new(),
            diagnostics: Vec::new(),
            visited: HashSet::new(),
            order: Vec::new(),
            converged: false,
            steps: 0,
        };
        let mut worklist: Vec<BlockId> = Vec::new();
        worklist.push(cfg.entry);
        let mut steps: usize = 0;
        proof {
            assert(res.in_states@ =~= Map::<BlockId, SemanticState>::empty());
            assert(res.out_states@ =~= Map::<BlockId, SemanticState>::empty());
            assert(res.visited@ =~= Set::<BlockId>::empty());
            assert(res.order@.to_set() =~= Set::<BlockId>::empty());
            assert(worklist@[0] == cfg.entry);
            assert(models(res.in_states@) =~= Map::<BlockId, StateModel>::empty());
            assert(models(res.out_states@) =~= Map::<BlockId, StateModel>::empty());
            assert(diag_models(res.diagnostics@) =~= Seq::<(Seq<char>, BlockId, bool)>::empty());
            assert(res.order@ =~= Seq::<BlockId>::empty());
            assert(worklist@ =~= seq![cfg.entry]);
            assert(model_of(res, worklist@, 0) == start_model(*cfg));
        }
        while worklist.len() > 0 && steps < usize::MAX
            invariant
                entry_state.wf(),
                em == entry_state.model(),
                run_inv(self.transfer, *cfg, em, res, worklist@),
                steps == 0 ==> worklist@ == seq![cfg.entry],
                steps > 0 && cfg.blocks@.contains_key(cfg.entry) ==> res.visited@.contains(cfg.entry),
                run_model(self.transfer, *cfg, em, model_of(res, worklist@, steps as nat), (usize::MAX - steps) as nat)
                    == full_run(self.transfer, *cfg, em),
            decreases usize::MAX - steps,
        {
            let ghost r0 = res;
            let ghost w0 = worklist@;
            let ghost s0 = steps;
            steps = steps + 1;
            self.visit(cfg, entry_state, &mut res, &mut worklist);
            proof {
                let m0 = model_of(r0, w0, s0 as nat);
                assert(run_model(self.transfer, *cfg, em, m0, (usize::MAX - s0) as nat)
                    == run_model(self.transfer, *cfg, em, step(self.transfer, *cfg, em, m0), (usize::MAX - steps) as nat));
                if cfg.blocks@.contains_key(w0[0]) {
                    let (inc, found, changed) = choose|inc: StateModel, found: Seq<DataflowDiagnostic>, changed: bool|
                        #[trigger] step_facts(self.transfer, *cfg, em, r0, res, w0, worklist@, w0[0], inc, found, changed);
                    assert(res.visited@ == r0.visited@.insert(w0[0]));
                    lemma_step_model(self.transfer, *cfg, em, r0, res, w0, worklist@, w0[0], inc, found, changed, s0 as nat);
                } else {
                    lemma_skip_model(self.transfer, *cfg, em, r0, w0, s0 as nat);
                }
                if cfg.blocks@.contains_key(cfg.entry) {
                    if s0 == 0 {
                        assert(w0[0] == cfg.entry);
                    }
                }
            }
        }
        proof {
            assert(run_model(self.transfer, *cfg, em, model_of(res, worklist@, steps as nat), (usize::MAX - steps) as nat)
                == model_of(res, worklist@, steps as nat));
        }
        res.converged = worklist.len() == 0;
        res.steps = steps;
        proof {
            if res.converged {
                assert(worklist@ =~= Seq::<BlockId>::empty());
            }
        }
        res
    }

    /// Takes the head of the worklist and, if the graph has that block,
    /// passes its incoming state through it.
    #[verifier::rlimit(100)]
    #[verifier::spinoff_prover]
    fn visit(&self, cfg: &Cfg, entry_state: &SemanticState, res: &mut DataflowResult, worklist: &mut Vec<BlockId>)
        requires
            entry_state.wf(),
            old(worklist)@.len() > 0,
            run_inv(self.transfer, *cfg, entry_state.model(), *old(res), old(worklist)@),
        ensures
            run_inv(self.transfer, *cfg, entry_state.model(), *final(res), final(worklist)@),
            !cfg.blocks@.contains_key(old(worklist)@[0]) ==> *final(res) == *old(res)
                && final(worklist)@ == old(worklist)@.drop_first(),
            cfg.blocks@.contains_key(old(worklist)@[0]) ==> exists|inc: StateModel, found: Seq<DataflowDiagnostic>, changed: bool|
                #[trigger] step_facts(self.transfer, *cfg, entry_state.model(), *old(res), *final(res),
                    old(worklist)@, final(worklist)@, old(worklist)@[0], inc, found, changed),
    {
        let ghost em = entry_state.model();
        let ghost wl0 = worklist@;
        let ghost r0 = *res;
        let x = worklist.remove(0);
        proof {
            assert(worklist@ =~= wl0.drop_first());
        }
        match cfg.blocks.get(&x) {
            None => {
                proof {
                    lemma_skip(self.transfer, *cfg, em, r0, wl0);
                }
            },
            Some(block) => {
                proof {
                    assert forall|b: BlockId| #[trigger] res.out_states@.contains_key(b) implies res.out_states@[b].wf() by {
                        assert(r0.visited@.contains(b));
                    }
                }
                let incoming = if x == cfg.entry {
                    entry_state.copy()
                } else {
                    join_preds(cfg, &res.out_states, x)
                };
                let ghost inc = incoming.model();
                assert(inc == incoming_for(*cfg, models(r0.out_states@), em, x));
                let kept = incoming.copy();
                res.in_states.insert(x, kept);
                let TransferResult { outgoing, diagnostics } = self.transfer.transfer(block, incoming);
                let ghost found = diagnostics@;
                let mut found_v = diagnostics;
                res.diagnostics.append(&mut found_v);
                proof {
                    lemma_diag_models_append(r0.diagnostics@, found);
                }
                let changed = match res.out_states.get(&x) {
                    None => true,
                    Some(prev) => {
                        proof {
                            assert(r0.visited@.contains(x));
                        }
                        !SemanticState::states_equal(prev, &outgoing)
                    },
                };
                let ghost wl1 = worklist@;
                if changed {
                    res.out_states.insert(x, outgoing);
                    let succs = cfg.successors(x);
                    let mut i: usize = 0;
                    while i < succs.len()
                        invariant
                            0 <= i <= succs@.len(),
                            succs@ == succs_of(*cfg, x),
                            worklist@.len() >= wl1.len(),
                            worklist@.subrange(0, wl1.len() as int) == wl1,
                            forall|k: int| wl1.len() <= k < worklist@.len() ==> #[trigger] succs_of(*cfg, x).contains(worklist@[k]),
                            forall|k: int| 0 <= k < i ==> worklist@.contains(#[trigger] succs@[k]),
                            worklist@ == enqueue(wl1, succs@.take(i as int)),
                        decreases succs@.len() - i,
                    {
                        let s = succs[i];
                        proof {
                            assert(succs@.take(i + 1).drop_last() =~= succs@.take(i as int));
                            assert(succs@.take(i + 1).last() == s);
                        }
                        if !listed(worklist, s) {
                            worklist.push(s);
                            proof {
                                assert(worklist@[worklist@.len() - 1] == s);
                                assert(worklist@.subrange(0, wl1.len() as int) =~= wl1);
                            }
                        }
                        i = i + 1;
                    }
                    proof {
                        assert(succs@.take(succs@.len() as int) =~= succs@);
                    }
                    proof {
                        assert forall|s: BlockId| succs_of(*cfg, x).contains(s) implies worklist@.contains(s) by {
                            let k = choose|k: int| 0 <= k < succs@.len() && succs@[k] == s;
                            assert(worklist@.contains(succs@[k]));
                        }
                    }
                }
                let ghost wl2 = worklist@;
                if !res.visited.contains(&x) {
                    res.order.push(x);
                }
                res.visited.insert(x);
                proof {
                    let r1 = *res;
                    assert(step_facts(self.transfer, *cfg, em, r0, r1, wl0, wl2, x, inc, found, changed));
                    lemma_step_consistent(self.transfer, *cfg, em, r0, r1, wl0, wl2, x, inc, found, changed);
                    lemma_step_ordered(self.transfer, *cfg, em, r0, r1, wl0, wl2, x, inc, found, changed);
                    lemma_step_frontier(self.transfer, *cfg, em, r0, r1, wl0, wl2, x, inc, found, changed);
                    if edges_agree(*cfg) {
                        lemma_step_settled(self.transfer, *cfg, em, r0, r1, wl0, wl2, x, inc, found, changed);
                    }
                }
            },
        }
    }
}

impl DataflowResult {
    /// Whether any finding is an error.
    pub fn has_errors(&self) -> (r: bool)
        ensures
            r == exists|i: int| 0 <= i < self.diagnostics@.len() && #[trigger] self.diagnostics@[i].is_error,
    {
        let mut i: usize = 0;
        while i < self.diagnostics.len()
            invariant
                0 <= i <= self.diagnostics@.len(),
                forall|k: int| 0 <= k < i ==> !(#[trigger] self.diagnostics@[k].is_error),
            decreases self.diagnostics@.len() - i,
        {
            if self.diagnostics[i].is_error {
                return true;
            }
            i = i + 1;
        }
        false
    }
}

} // verus!
