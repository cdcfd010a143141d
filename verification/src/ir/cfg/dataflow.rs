//! Control-flow graphs for the ownership analysis, the transfer of
//! ownership state through a block, and the worklist engine that runs it
//! to a fixpoint.

use vstd::prelude::*;
use std::collections::{HashMap, HashSet};
pub use super::engine::{DataflowEngine, DataflowResult};
use super::state::{SemanticState, StateModel, VarState, BorrowKind, BorrowLifetime, LifetimeModel, BorrowModel, lemma_filter_step, declared, with_var, borrowed, mutably_borrowed, moved_out, with_borrow, temporaries_ended, entered, exited, outliving, escaped, region_of, state_join, empty_state, OwnershipState, InitState};

verus! {

broadcast use {vstd::std_specs::hash::group_hash_axioms, vstd::seq_lib::group_seq_properties};

pub type BlockId = usize;

/// A block of the analysis: its id and the ownership-relevant operations.
#[derive(Debug)]
pub struct CfgBlock {
    pub id: BlockId,
    pub instructions: Vec<CfgInstruction>,
}

/// The control-flow graph of one function.
#[derive(Debug)]
pub struct Cfg {
    pub entry: BlockId,
    pub blocks: HashMap<BlockId, CfgBlock>,
    pub successors: HashMap<BlockId, Vec<BlockId>>,
    pub predecessors: HashMap<BlockId, Vec<BlockId>>,
}

/// One function's graph, with the parameters its entry state declares.
#[derive(Debug)]
pub struct FunctionCfg {
    pub name: String,
    pub cfg: Cfg,
    pub params: Vec<String>,
}

/// An operation relevant to ownership.
#[derive(Debug)]
pub enum CfgInstruction {
    Declare { name: String },
    Assign { name: String },
    Move { name: String },
    Borrow { borrower: String, place: String, mutable: bool },
    Call { name: String, args: Vec<String> },
    Use { name: String },
    RegionEnter { name: String },
    RegionExit { name: String },
    ReturnRef { place: String },
    Escape { from: String, to: String },
    Unsupported { op: String },
    Return,
    Branch { condition: String },
    Nop,
}

/// The successors recorded for `id`.
pub open spec fn succs_of(cfg: Cfg, id: BlockId) -> Seq<BlockId> {
    if cfg.successors@.contains_key(id) { cfg.successors@[id]@ } else { Seq::empty() }
}

/// The predecessors recorded for `id`.
pub open spec fn preds_of(cfg: Cfg, id: BlockId) -> Seq<BlockId> {
    if cfg.predecessors@.contains_key(id) { cfg.predecessors@[id]@ } else { Seq::empty() }
}

/// Every recorded edge is recorded at both ends.
pub open spec fn edges_agree(cfg: Cfg) -> bool {
    forall|x: BlockId, y: BlockId| #[trigger] preds_of(cfg, y).contains(x) <==> #[trigger] succs_of(cfg, x).contains(y)
}

impl Cfg {
    /// An empty graph with entry block `entry`.
    pub fn new(entry: BlockId) -> (r: Cfg)
        ensures
            r.entry == entry,
            r.blocks@ == Map::<BlockId, CfgBlock>::empty(),
            r.successors@ == Map::<BlockId, Vec<BlockId>>::empty(),
            r.predecessors@ == Map::<BlockId, Vec<BlockId>>::empty(),
            edges_agree(r),
    {
        Cfg { entry, blocks: HashMap::new(), successors: HashMap::new(), predecessors: HashMap::new() }
    }

    /// Adds (or replaces) a block; it starts with no recorded edges if it
    /// had none.
    pub fn add_block(&mut self, block: CfgBlock)
        ensures
            final(self).entry == old(self).entry,
            final(self).blocks@ == old(self).blocks@.insert(block.id, block),
            forall|x: BlockId| #[trigger] succs_of(*final(self), x) == succs_of(*old(self), x),
            forall|x: BlockId| #[trigger] preds_of(*final(self), x) == preds_of(*old(self), x),
            final(self).successors@.contains_key(block.id),
            final(self).predecessors@.contains_key(block.id),
            edges_agree(*old(self)) ==> edges_agree(*final(self)),
    {
        let id = block.id;
        self.blocks.insert(id, block);
        if !self.successors.contains_key(&id) {
            self.successors.insert(id, Vec::new());
        }
        if !self.predecessors.contains_key(&id) {
            self.predecessors.insert(id, Vec::new());
        }
        assert forall|x: BlockId| #[trigger] succs_of(*self, x) == succs_of(*old(self), x) by {
            if x == id && !old(self).successors@.contains_key(id) {
                assert(self.successors@[id]@ =~= Seq::<BlockId>::empty());
            }
        }
        assert forall|x: BlockId| #[trigger] preds_of(*self, x) == preds_of(*old(self), x) by {
            if x == id && !old(self).predecessors@.contains_key(id) {
                assert(self.predecessors@[id]@ =~= Seq::<BlockId>::empty());
            }
        }
    }

    /// Records the edge `from -> to` at both ends.
    pub fn add_edge(&mut self, from: BlockId, to: BlockId)
        ensures
            final(self).entry == old(self).entry,
            final(self).blocks@ == old(self).blocks@,
            succs_of(*final(self), from) == succs_of(*old(self), from).push(to),
            forall|x: BlockId| x != from ==> #[trigger] succs_of(*final(self), x) == succs_of(*old(self), x),
            preds_of(*final(self), to) == preds_of(*old(self), to).push(from),
            forall|x: BlockId| x != to ==> #[trigger] preds_of(*final(self), x) == preds_of(*old(self), x),
            edges_agree(*old(self)) ==> edges_agree(*final(self)),
    {
        let mut s = match self.successors.remove(&from) {
            Some(v) => v,
            None => Vec::new(),
        };
        s.push(to);
        self.successors.insert(from, s);
        let mut p = match self.predecessors.remove(&to) {
            Some(v) => v,
            None => Vec::new(),
        };
        p.push(from);
        self.predecessors.insert(to, p);
        proof {
            assert(succs_of(*self, from) =~= succs_of(*old(self), from).push(to));
            assert(preds_of(*self, to) =~= preds_of(*old(self), to).push(from));
            if edges_agree(*old(self)) {
                assert forall|x: BlockId, y: BlockId| #[trigger] preds_of(*self, y).contains(x) <==> #[trigger] succs_of(*self, x).contains(y) by {
                    assert(preds_of(*old(self), y).contains(x) <==> succs_of(*old(self), x).contains(y));
                    if y == to {
                        assert(preds_of(*self, y).contains(x) <==> (preds_of(*old(self), y).contains(x) || x == from));
                    }
                    if x == from {
                        assert(succs_of(*self, x).contains(y) <==> (succs_of(*old(self), x).contains(y) || y == to));
                    }
                }
            }
        }
    }

    /// The successors recorded for `id`, none if it has none.
    pub fn successors(&self, id: BlockId) -> (r: &[BlockId])
        ensures
            r@ == succs_of(*self, id),
    {
        match self.successors.get(&id) {
            Some(v) => v.as_slice(),
            None => &[],
        }
    }

    /// The predecessors recorded for `id`, none if it has none.
    pub fn predecessors(&self, id: BlockId) -> (r: &[BlockId])
        ensures
            r@ == preds_of(*self, id),
    {
        match self.predecessors.get(&id) {
            Some(v) => v.as_slice(),
            None => &[],
        }
    }
}

/// A graph with blocks `0..block_count` (no instructions), entry `0`,
/// and the given edges, in order.
pub fn build_cfg_from_blocks(block_count: usize, edges: &[(BlockId, BlockId)]) -> (r: Cfg)
    ensures
        r.entry == 0,
        r.blocks@.dom() == Set::new(|i: BlockId| i < block_count),
        forall|i: BlockId| i < block_count ==> (#[trigger] r.blocks@[i]).id == i && r.blocks@[i].instructions@.len() == 0,
        edges_agree(r),
        forall|x: BlockId| #[trigger] succs_of(r, x) == edges@.filter(|e: (BlockId, BlockId)| e.0 == x).map_values(|e: (BlockId, BlockId)| e.1),
        forall|x: BlockId| #[trigger] preds_of(r, x) == edges@.filter(|e: (BlockId, BlockId)| e.1 == x).map_values(|e: (BlockId, BlockId)| e.0),
{
    let mut cfg = Cfg::new(0);
    let mut i: usize = 0;
    while i < block_count
        invariant
            0 <= i <= block_count,
            cfg.entry == 0,
            cfg.blocks@.dom() == Set::new(|k: BlockId| k < i),
            forall|k: BlockId| k < i ==> (#[trigger] cfg.blocks@[k]).id == k && cfg.blocks@[k].instructions@.len() == 0,
            edges_agree(cfg),
            forall|x: BlockId| #[trigger] succs_of(cfg, x) == Seq::<BlockId>::empty(),
            forall|x: BlockId| #[trigger] preds_of(cfg, x) == Seq::<BlockId>::empty(),
        decreases block_count - i,
    {
        cfg.add_block(CfgBlock { id: i, instructions: Vec::new() });
        i = i + 1;
        assert(cfg.blocks@.dom() =~= Set::new(|k: BlockId| k < i));
    }
    add_edges(&mut cfg, edges);
    cfg
}


/// Records the edges of a graph that has none yet, in order.
pub(crate) fn add_edges(cfg: &mut Cfg, edges: &[(BlockId, BlockId)])
    requires
        edges_agree(*old(cfg)),
        forall|x: BlockId| #[trigger] succs_of(*old(cfg), x) == Seq::<BlockId>::empty(),
        forall|x: BlockId| #[trigger] preds_of(*old(cfg), x) == Seq::<BlockId>::empty(),
    ensures
        final(cfg).entry == old(cfg).entry,
        final(cfg).blocks@ == old(cfg).blocks@,
        edges_agree(*final(cfg)),
        forall|x: BlockId| #[trigger] succs_of(*final(cfg), x) == edges@.filter(|e: (BlockId, BlockId)| e.0 == x).map_values(|e: (BlockId, BlockId)| e.1),
        forall|x: BlockId| #[trigger] preds_of(*final(cfg), x) == edges@.filter(|e: (BlockId, BlockId)| e.1 == x).map_values(|e: (BlockId, BlockId)| e.0),
{
    let ghost c0 = *cfg;
    let mut j: usize = 0;
    proof {
        reveal(Seq::filter);
        assert forall|x: BlockId| #[trigger] succs_of(*cfg, x) == edges@.take(0).filter(|e: (BlockId, BlockId)| e.0 == x).map_values(|e: (BlockId, BlockId)| e.1) by {
            assert(edges@.take(0).filter(|e: (BlockId, BlockId)| e.0 == x).map_values(|e: (BlockId, BlockId)| e.1) =~= Seq::<BlockId>::empty());
        }
        assert forall|x: BlockId| #[trigger] preds_of(*cfg, x) == edges@.take(0).filter(|e: (BlockId, BlockId)| e.1 == x).map_values(|e: (BlockId, BlockId)| e.0) by {
            assert(edges@.take(0).filter(|e: (BlockId, BlockId)| e.1 == x).map_values(|e: (BlockId, BlockId)| e.0) =~= Seq::<BlockId>::empty());
        }
    }
    while j < edges.len()
        invariant
            0 <= j <= edges@.len(),
            cfg.entry == c0.entry,
            cfg.blocks@ == c0.blocks@,
            edges_agree(*cfg),
            forall|x: BlockId| #[trigger] succs_of(*cfg, x) == edges@.take(j as int).filter(|e: (BlockId, BlockId)| e.0 == x).map_values(|e: (BlockId, BlockId)| e.1),
            forall|x: BlockId| #[trigger] preds_of(*cfg, x) == edges@.take(j as int).filter(|e: (BlockId, BlockId)| e.1 == x).map_values(|e: (BlockId, BlockId)| e.0),
        decreases edges@.len() - j,
    {
        let (from, to) = edges[j];
        cfg.add_edge(from, to);
        proof {
            assert forall|x: BlockId| #[trigger] succs_of(*cfg, x) == edges@.take(j + 1).filter(|e: (BlockId, BlockId)| e.0 == x).map_values(|e: (BlockId, BlockId)| e.1) by {
                lemma_filter_step(edges@, |e: (BlockId, BlockId)| e.0 == x, j as int);
                let f = edges@.take(j as int).filter(|e: (BlockId, BlockId)| e.0 == x);
                assert(f.push(edges@[j as int]).map_values(|e: (BlockId, BlockId)| e.1) =~= f.map_values(|e: (BlockId, BlockId)| e.1).push(to));
            }
            assert forall|x: BlockId| #[trigger] preds_of(*cfg, x) == edges@.take(j + 1).filter(|e: (BlockId, BlockId)| e.1 == x).map_values(|e: (BlockId, BlockId)| e.0) by {
                lemma_filter_step(edges@, |e: (BlockId, BlockId)| e.1 == x, j as int);
                let f = edges@.take(j as int).filter(|e: (BlockId, BlockId)| e.1 == x);
                assert(f.push(edges@[j as int]).map_values(|e: (BlockId, BlockId)| e.0) =~= f.map_values(|e: (BlockId, BlockId)| e.0).push(from));
            }
        }
        j = j + 1;
    }
    assert(edges@.take(edges@.len() as int) =~= edges@);
}


// ─── Diagnostics and the transfer of state through a block ──────────

/// A finding of the analysis, in a block.
#[derive(Debug)]
pub struct DataflowDiagnostic {
    pub message: String,
    pub block: BlockId,
    pub is_error: bool,
}

pub open spec fn diag_model(d: DataflowDiagnostic) -> (Seq<char>, BlockId, bool) {
    (d.message@, d.block, d.is_error)
}

pub open spec fn diag_models(ds: Seq<DataflowDiagnostic>) -> Seq<(Seq<char>, BlockId, bool)> {
    Seq::new(ds.len(), |i: int| diag_model(ds[i]))
}

/// The state leaving a block and what was found in it.
#[derive(Debug)]
pub struct TransferResult {
    pub outgoing: SemanticState,
    pub diagnostics: Vec<DataflowDiagnostic>,
}

/// How a state passes through a block.
pub trait Transfer {
    /// The state leaving `block` when `incoming` enters it, and the
    /// findings, in order.
    spec fn outcome(&self, block: CfgBlock, incoming: StateModel) -> (StateModel, Seq<(Seq<char>, BlockId, bool)>);

    fn transfer(&self, block: &CfgBlock, incoming: SemanticState) -> (r: TransferResult)
        requires
            incoming.wf(),
        ensures
            r.outgoing.wf(),
            (r.outgoing.model(), diag_models(r.diagnostics@)) == self.outcome(*block, incoming.model());
}

/// An error finding in block `b`.
pub open spec fn err(msg: Seq<char>, b: BlockId) -> (Seq<char>, BlockId, bool) {
    (msg, b, true)
}

/// The findings of writing to or moving a variable in state `st`.
pub open spec fn write_findings(st: VarState, name: Seq<char>, b: BlockId) -> Seq<(Seq<char>, BlockId, bool)> {
    (if st.ownership == OwnershipState::Moved {
        seq![err("E-MOVE-002: Cannot assign to moved variable '"@ + name + "'"@, b)]
    } else if st.ownership == OwnershipState::MaybeMoved {
        seq![err("E-MOVE-002: Cannot assign to maybe-moved variable '"@ + name + "'"@, b)]
    } else {
        Seq::empty()
    }) + (if st.init == InitState::Uninitialized {
        seq![err("E-INIT-001: Cannot assign to uninitialized variable '"@ + name + "'"@, b)]
    } else {
        Seq::empty()
    })
}

/// The findings of using a variable in state `st`.
pub open spec fn use_findings(st: VarState, name: Seq<char>, b: BlockId) -> Seq<(Seq<char>, BlockId, bool)> {
    (if st.init == InitState::Uninitialized {
        seq![err("E-INIT-001: Use of uninitialized '"@ + name + "'"@, b)]
    } else if st.init == InitState::MaybeUninitialized {
        seq![err("E-INIT-002: Use of maybe-uninitialized '"@ + name + "'"@, b)]
    } else {
        Seq::empty()
    }) + (if st.ownership == OwnershipState::Moved {
        seq![err("E-MOVE-001: Use of moved '"@ + name + "'"@, b)]
    } else if st.ownership == OwnershipState::MaybeMoved {
        seq![err("E-MOVE-002: Use of maybe-moved '"@ + name + "'"@, b)]
    } else {
        Seq::empty()
    })
}

/// `base` with the temporary borrows named in `ids` ended, in order.
pub open spec fn all_ended(m: StateModel, ids: Seq<Seq<char>>) -> StateModel
    decreases ids.len(),
{
    if ids.len() == 0 {
        m
    } else {
        temporaries_ended(all_ended(m, ids.drop_last()), ids.last())
    }
}

/// The temporary borrows (by name) of any place among `args`.
pub open spec fn temporaries_of(m: StateModel, args: Seq<Seq<char>>) -> Seq<Seq<char>> {
    m.borrows.filter(|x: BorrowModel| x.lifetime is Temporary && args.contains(x.place))
        .map_values(|x: BorrowModel| x.lifetime->Temporary_0)
}

/// The prefix of the borrowers that names a temporary borrow for a call.
pub open spec fn temp_prefix() -> Seq<char> {
    "__tmp_call_"@
}

/// The lifetime of a borrow made by `borrower`: the call's own for a
/// temporary, else the region `borrower` was declared in, else the
/// current region, else the borrower itself.
pub open spec fn lifetime_for(m: StateModel, borrower: Seq<char>) -> LifetimeModel {
    if borrower.len() >= temp_prefix().len() && borrower.subrange(0, temp_prefix().len() as int) == temp_prefix() {
        LifetimeModel::Temporary(borrower)
    } else if region_of(m, borrower) is Some {
        LifetimeModel::Region(region_of(m, borrower)->Some_0)
    } else if m.stack.len() > 0 {
        LifetimeModel::Region(m.stack.last())
    } else {
        LifetimeModel::Local(borrower)
    }
}

/// The state after one operation in block `b`, and the findings.
pub open spec fn step(m: StateModel, i: CfgInstruction, b: BlockId) -> (StateModel, Seq<(Seq<char>, BlockId, bool)>) {
    match i {
        CfgInstruction::Declare { name } => (declared(m, name@, available()), Seq::empty()),
        CfgInstruction::Assign { name } => {
            let d1 = if mutably_borrowed(m, name@) {
                seq![err("E-BORROW-004: Cannot assign to '"@ + name@ + "' while mutably borrowed"@, b)]
            } else {
                Seq::empty()
            };
            let d2 = if m.vars.contains_key(name@) { write_findings(m.vars[name@], name@, b) } else { Seq::empty() };
            (with_var(m, name@, available()), d1 + d2)
        },
        CfgInstruction::Move { name } => {
            let d1 = if borrowed(m, name@) {
                seq![err("E-MOVE-002: Cannot move '"@ + name@ + "' while borrowed"@, b)]
            } else {
                Seq::empty()
            };
            let d2 = if m.vars.contains_key(name@) { write_findings(m.vars[name@], name@, b) } else { Seq::empty() };
            (moved_out(m, name@), d1 + d2)
        },
        CfgInstruction::Borrow { borrower, place, mutable } => {
            let d = if m.vars.contains_key(place@) {
                (if m.vars[place@].ownership == OwnershipState::Moved {
                    seq![err("E-MOVE-001: Cannot borrow moved value '"@ + place@ + "'"@, b)]
                } else {
                    Seq::empty()
                }) + (if m.vars[place@].init == InitState::Uninitialized {
                    seq![err("E-INIT-001: Cannot borrow uninitialized '"@ + place@ + "'"@, b)]
                } else {
                    Seq::empty()
                })
            } else {
                Seq::empty()
            };
            let kind = if mutable { BorrowKind::Mutable } else { BorrowKind::Shared };
            (with_borrow(m, BorrowModel { borrower: borrower@, place: place@, kind: kind, lifetime: lifetime_for(m, borrower@) }), d)
        },
        CfgInstruction::Call { args, .. } =>
            (all_ended(m, temporaries_of(m, Seq::new(args@.len(), |k: int| args@[k]@))), Seq::empty()),
        CfgInstruction::RegionEnter { name } => (entered(m, name@), Seq::empty()),
        CfgInstruction::RegionExit { name } => (
            exited(m, name@),
            outliving(m, name@).map_values(|who: Seq<char>|
                err("E-REGION-001: Reference outlives region '"@ + name@ + "': "@ + who, b)),
        ),
        CfgInstruction::ReturnRef { place } => (
            escaped(m, place@, "return"@),
            seq![err("E-ESCAPE-001: Reference '"@ + place@ + "' escapes via return"@, b)],
        ),
        CfgInstruction::Escape { from, to } => (
            escaped(m, from@, to@),
            seq![err("E-ESCAPE-002: Reference '"@ + from@ + "' escapes to "@ + to@, b)],
        ),
        CfgInstruction::Use { name } => {
            let d1 = if m.vars.contains_key(name@) { use_findings(m.vars[name@], name@, b) } else { Seq::empty() };
            let d2 = if mutably_borrowed(m, name@) {
                seq![err("E-BORROW-004: Cannot use '"@ + name@ + "' while mutably borrowed"@, b)]
            } else {
                Seq::empty()
            };
            (m, d1 + d2)
        },
        CfgInstruction::Unsupported { op } => (
            m,
            seq![err("E-UNSUPPORTED-001: Unsupported IR operation in dataflow: "@ + op@ + " (H fail-closed)"@, b)],
        ),
        _ => (m, Seq::empty()),
    }
}

/// Initialized and owned.
pub open spec fn available() -> VarState {
    VarState { init: InitState::Initialized, ownership: OwnershipState::Owned }
}

/// The state after the operations `is` of block `b`, and all findings.
pub open spec fn run_ops(m: StateModel, is: Seq<CfgInstruction>, b: BlockId) -> (StateModel, Seq<(Seq<char>, BlockId, bool)>)
    decreases is.len(),
{
    if is.len() == 0 {
        (m, Seq::empty())
    } else {
        let (m1, d1) = run_ops(m, is.drop_last(), b);
        let (m2, d2) = step(m1, is.last(), b);
        (m2, d1 + d2)
    }
}

/// The ownership rules: moves, borrows, regions and escapes.
pub struct OwnershipTransfer;


/// `a`, then `x`, then `b`.
pub(crate) fn text3(a: &str, x: &String, b: &str) -> (r: String)
    ensures
        r@ == a@ + x@ + b@,
{
    let mut s = a.to_string();
    s.append(x.as_str());
    s.append(b);
    s
}

/// `a`, `x`, `b`, then `y`.
pub(crate) fn text4(a: &str, x: &String, b: &str, y: &String) -> (r: String)
    ensures
        r@ == a@ + x@ + b@ + y@,
{
    let mut s = text3(a, x, b);
    s.append(y.as_str());
    s
}

fn push_err(diags: &mut Vec<DataflowDiagnostic>, message: String, b: BlockId)
    ensures
        diag_models(final(diags)@) == diag_models(old(diags)@).push(err(message@, b)),
{
    let ghost mv = message@;
    diags.push(DataflowDiagnostic { message, block: b, is_error: true });
    assert(diag_models(diags@) =~= diag_models(old(diags)@).push(err(mv, b)));
}

fn write_checks(st: VarState, name: &String, b: BlockId, diags: &mut Vec<DataflowDiagnostic>)
    ensures
        diag_models(final(diags)@) == diag_models(old(diags)@) + write_findings(st, name@, b),
{
    let ghost d0 = diag_models(diags@);
    if matches!(st.ownership, OwnershipState::Moved) {
        push_err(diags, text3("E-MOVE-002: Cannot assign to moved variable '", name, "'"), b);
    } else if matches!(st.ownership, OwnershipState::MaybeMoved) {
        push_err(diags, text3("E-MOVE-002: Cannot assign to maybe-moved variable '", name, "'"), b);
    }
    let ghost d1 = diag_models(diags@);
    if matches!(st.init, InitState::Uninitialized) {
        push_err(diags, text3("E-INIT-001: Cannot assign to uninitialized variable '", name, "'"), b);
    }
    assert(diag_models(diags@) =~= d0 + write_findings(st, name@, b));
}

fn use_checks(st: VarState, name: &String, b: BlockId, diags: &mut Vec<DataflowDiagnostic>)
    ensures
        diag_models(final(diags)@) == diag_models(old(diags)@) + use_findings(st, name@, b),
{
    let ghost d0 = diag_models(diags@);
    if matches!(st.init, InitState::Uninitialized) {
        push_err(diags, text3("E-INIT-001: Use of uninitialized '", name, "'"), b);
    } else if matches!(st.init, InitState::MaybeUninitialized) {
        push_err(diags, text3("E-INIT-002: Use of maybe-uninitialized '", name, "'"), b);
    }
    if matches!(st.ownership, OwnershipState::Moved) {
        push_err(diags, text3("E-MOVE-001: Use of moved '", name, "'"), b);
    } else if matches!(st.ownership, OwnershipState::MaybeMoved) {
        push_err(diags, text3("E-MOVE-002: Use of maybe-moved '", name, "'"), b);
    }
    assert(diag_models(diags@) =~= d0 + use_findings(st, name@, b));
}

/// Whether `s` names a temporary borrow for a call.
fn is_temp_borrower(s: &String) -> (r: bool)
    ensures
        r == (s@.len() >= temp_prefix().len() && s@.subrange(0, temp_prefix().len() as int) == temp_prefix()),
{
    let p = "__tmp_call_";
    let n = p.unicode_len();
    let t = s.as_str();
    if t.unicode_len() < n {
        return false;
    }
    let mut i: usize = 0;
    while i < n
        invariant
            n == p@.len(),
            p@ == temp_prefix(),
            t@ == s@,
            n <= t@.len(),
            0 <= i <= n,
            forall|j: int| 0 <= j < i ==> t@[j] == p@[j],
        decreases n - i,
    {
        if t.get_char(i) != p.get_char(i) {
            assert(s@.subrange(0, n as int)[i as int] != temp_prefix()[i as int]);
            return false;
        }
        i = i + 1;
    }
    assert(s@.subrange(0, n as int) =~= temp_prefix());
    true
}

/// The lifetime of a borrow made by `borrower` in `st`; see `lifetime_for`.
fn lifetime_of(st: &SemanticState, borrower: &String) -> (r: BorrowLifetime)
    requires
        st.wf(),
    ensures
        r@ == lifetime_for(st.model(), borrower@),
{
    if is_temp_borrower(borrower) {
        BorrowLifetime::Temporary(borrower.clone())
    } else {
        match st.region_of_var(borrower) {
            Some(r) => BorrowLifetime::Region(r),
            None => match st.current_region() {
                Some(cur) => BorrowLifetime::Region(cur),
                None => BorrowLifetime::Local(borrower.clone()),
            },
        }
    }
}

/// Ends, in order, the temporary borrows of any place among `args`.
fn end_call_borrows(st: &mut SemanticState, args: &Vec<String>)
    requires
        old(st).wf(),
    ensures
        final(st).wf(),
        final(st).model() == all_ended(old(st).model(), temporaries_of(old(st).model(), Seq::new(args@.len(), |k: int| args@[k]@))),
{
    let ghost m0 = st.model();
    let ghost av = Seq::new(args@.len(), |k: int| args@[k]@);
    let ghost pred = |x: BorrowModel| x.lifetime is Temporary && av.contains(x.place);
    let ghost f = |x: BorrowModel| x.lifetime->Temporary_0;
    let mut ids: Vec<String> = Vec::new();
    let mut i: usize = 0;
    proof { reveal(Seq::filter); }
    assert(m0.borrows.take(0) =~= Seq::<BorrowModel>::empty());
    assert(super::state::string_views(ids@) =~= m0.borrows.take(0).filter(pred).map_values(f));
    while i < st.borrows.len()
        invariant
            0 <= i <= st.borrows@.len(),
            st.model() == m0,
            av == Seq::new(args@.len(), |k: int| args@[k]@),
            pred == (|x: BorrowModel| x.lifetime is Temporary && av.contains(x.place)),
            f == (|x: BorrowModel| x.lifetime->Temporary_0),
            super::state::string_views(ids@) == m0.borrows.take(i as int).filter(pred).map_values(f),
        decreases st.borrows@.len() - i,
    {
        proof { lemma_filter_step(m0.borrows, pred, i as int); }
        assert(st.borrows@[i as int]@ == m0.borrows[i as int]);
        match &st.borrows[i].lifetime {
            BorrowLifetime::Temporary(id) => {
                let mut k: usize = 0;
                let mut hit = false;
                while k < args.len()
                    invariant
                        0 <= k <= args@.len(),
                        0 <= i < st.borrows@.len(),
                        av == Seq::new(args@.len(), |k: int| args@[k]@),
                        hit == exists|q: int| 0 <= q < k && av[q] == st.borrows@[i as int].place@,
                    decreases args@.len() - k,
                {
                    if args[k] == st.borrows[i].place {
                        assert(av[k as int] == st.borrows@[i as int].place@);
                        hit = true;
                    }
                    k = k + 1;
                }
                if hit {
                    let ghost before = ids@;
                    ids.push(id.clone());
                    let ghost fl = m0.borrows.take(i as int).filter(pred);
                    assert(fl.push(m0.borrows[i as int]).map_values(f) =~= fl.map_values(f).push(f(m0.borrows[i as int])));
                    assert(super::state::string_views(ids@) =~= super::state::string_views(before).push(id@));
                }
            },
            _ => {},
        }
        i = i + 1;
    }
    assert(m0.borrows.take(m0.borrows.len() as int) =~= m0.borrows);
    let ghost all = super::state::string_views(ids@);
    let mut j: usize = 0;
    assert(all.take(0) =~= Seq::<Seq<char>>::empty());
    while j < ids.len()
        invariant
            0 <= j <= ids@.len(),
            all == super::state::string_views(ids@),
            st.wf(),
            st.model() == all_ended(m0, all.take(j as int)),
        decreases ids@.len() - j,
    {
        st.end_temporary_borrows(&ids[j]);
        assert(all.take(j + 1).drop_last() =~= all.take(j as int));
        assert(all.take(j + 1).last() == ids@[j as int]@);
        j = j + 1;
    }
    assert(all.take(all.len() as int) =~= all);
}


/// Applies one operation of block `b` to `st`, adding its findings.
#[verifier::rlimit(40)]
fn apply_op(st: &mut SemanticState, op: &CfgInstruction, b: BlockId, diags: &mut Vec<DataflowDiagnostic>)
    requires
        old(st).wf(),
    ensures
        final(st).wf(),
        final(st).model() == step(old(st).model(), *op, b).0,
        diag_models(final(diags)@) == diag_models(old(diags)@) + step(old(st).model(), *op, b).1,
{
    let ghost m = st.model();
    let ghost d0 = diag_models(diags@);
    match op {
        CfgInstruction::Declare { name } => {
            st.declare(name, VarState::available());
            assert(diag_models(diags@) =~= d0 + Seq::<(Seq<char>, BlockId, bool)>::empty());
        },
        CfgInstruction::Assign { name } => {
            if st.is_mutably_borrowed(name) {
                push_err(diags, text3("E-BORROW-004: Cannot assign to '", name, "' while mutably borrowed"), b);
            }
            let ghost d1 = diag_models(diags@);
            match st.var_state(name) {
                Some(v) => write_checks(v, name, b, diags),
                None => {},
            }
            st.set_var(name, VarState::available());
            assert(diag_models(diags@) =~= d0 + step(m, *op, b).1);
        },
        CfgInstruction::Move { name } => {
            if st.is_borrowed(name) {
                push_err(diags, text3("E-MOVE-002: Cannot move '", name, "' while borrowed"), b);
            }
            match st.var_state(name) {
                Some(v) => write_checks(v, name, b, diags),
                None => {},
            }
            st.move_out(name);
            assert(diag_models(diags@) =~= d0 + step(m, *op, b).1);
        },
        CfgInstruction::Borrow { borrower, place, mutable } => {
            match st.var_state(place) {
                Some(v) => {
                    if v.is_moved() {
                        push_err(diags, text3("E-MOVE-001: Cannot borrow moved value '", place, "'"), b);
                    }
                    if v.is_uninitialized() {
                        push_err(diags, text3("E-INIT-001: Cannot borrow uninitialized '", place, "'"), b);
                    }
                },
                None => {},
            }
            let kind = if *mutable { BorrowKind::Mutable } else { BorrowKind::Shared };
            let lt = lifetime_of(st, borrower);
            st.borrow(borrower, place, kind, lt);
            assert(diag_models(diags@) =~= d0 + step(m, *op, b).1);
        },
        CfgInstruction::Call { args, .. } => {
            end_call_borrows(st, args);
            assert(diag_models(diags@) =~= d0 + Seq::<(Seq<char>, BlockId, bool)>::empty());
        },
        CfgInstruction::RegionEnter { name } => {
            st.enter_region(name);
            assert(diag_models(diags@) =~= d0 + Seq::<(Seq<char>, BlockId, bool)>::empty());
        },
        CfgInstruction::RegionExit { name } => {
            let who = st.exit_region(name);
            let ghost wv = super::state::string_views(who@);
            let ghost g = |w: Seq<char>| err("E-REGION-001: Reference outlives region '"@ + name@ + "': "@ + w, b);
            let mut k: usize = 0;
            while k < who.len()
                invariant
                    0 <= k <= who@.len(),
                    wv == super::state::string_views(who@),
                    g == (|w: Seq<char>| err("E-REGION-001: Reference outlives region '"@ + name@ + "': "@ + w, b)),
                    diag_models(diags@) == d0 + wv.take(k as int).map_values(g),
                decreases who@.len() - k,
            {
                push_err(diags, text4("E-REGION-001: Reference outlives region '", name, "': ", &who[k]), b);
                assert(wv.take(k + 1).map_values(g) =~= wv.take(k as int).map_values(g).push(g(wv[k as int])));
                k = k + 1;
            }
            assert(wv.take(wv.len() as int) =~= wv);
        },
        CfgInstruction::ReturnRef { place } => {
            proof { reveal_strlit("return"); }
            let to = "return".to_string();
            st.mark_escape(place, &to);
            push_err(diags, text3("E-ESCAPE-001: Reference '", place, "' escapes via return"), b);
            assert(diag_models(diags@) =~= d0 + step(m, *op, b).1);
        },
        CfgInstruction::Escape { from, to } => {
            st.mark_escape(from, to);
            push_err(diags, text4("E-ESCAPE-002: Reference '", from, "' escapes to ", to), b);
            assert(diag_models(diags@) =~= d0 + step(m, *op, b).1);
        },
        CfgInstruction::Use { name } => {
            match st.var_state(name) {
                Some(v) => use_checks(v, name, b, diags),
                None => {},
            }
            if st.is_mutably_borrowed(name) {
                push_err(diags, text3("E-BORROW-004: Cannot use '", name, "' while mutably borrowed"), b);
            }
            assert(diag_models(diags@) =~= d0 + step(m, *op, b).1);
        },
        CfgInstruction::Unsupported { op: what } => {
            push_err(diags, text3("E-UNSUPPORTED-001: Unsupported IR operation in dataflow: ", what, " (H fail-closed)"), b);
            assert(diag_models(diags@) =~= d0 + step(m, *op, b).1);
        },
        _ => {
            assert(diag_models(diags@) =~= d0 + Seq::<(Seq<char>, BlockId, bool)>::empty());
        },
    }
}

impl Transfer for OwnershipTransfer {
    open spec fn outcome(&self, block: CfgBlock, incoming: StateModel) -> (StateModel, Seq<(Seq<char>, BlockId, bool)>) {
        run_ops(incoming, block.instructions@, block.id)
    }

    fn transfer(&self, block: &CfgBlock, incoming: SemanticState) -> (r: TransferResult) {
        let ghost m0 = incoming.model();
        let mut st = incoming;
        let mut diags: Vec<DataflowDiagnostic> = Vec::new();
        let mut i: usize = 0;
        assert(block.instructions@.take(0) =~= Seq::<CfgInstruction>::empty());
        assert(diag_models(diags@) =~= Seq::<(Seq<char>, BlockId, bool)>::empty());
        while i < block.instructions.len()
            invariant
                0 <= i <= block.instructions@.len(),
                st.wf(),
                (st.model(), diag_models(diags@)) == run_ops(m0, block.instructions@.take(i as int), block.id),
            decreases block.instructions@.len() - i,
        {
            assert(block.instructions@.take(i + 1).drop_last() =~= block.instructions@.take(i as int));
            assert(block.instructions@.take(i + 1).last() == block.instructions@[i as int]);
            apply_op(&mut st, &block.instructions[i], block.id, &mut diags);
            i = i + 1;
        }
        assert(block.instructions@.take(block.instructions@.len() as int) =~= block.instructions@);
        TransferResult { outgoing: st, diagnostics: diags }
    }
}

} // verus!
