//! The ownership state the dataflow analysis tracks at a program point:
//! per variable whether it is initialized and owned, the live borrows,
//! the regions entered, the region each variable was declared in, and
//! the references that escaped.
//!
//! A temporary borrow (one made for the duration of a call) has a
//! lifetime named after its borrower, so that states do not depend on
//! a counter and the analysis reaches a fixpoint.

use vstd::prelude::*;
use crate::common::assoc::{map_of, keys_distinct, lemma_map_of_dom, lemma_map_of_index,
    lemma_keys_distinct_push, lemma_map_of_update};

verus! {

broadcast use vstd::seq_lib::group_seq_properties;

#[derive(Debug, Clone, Copy, PartialEq, Eq, Structural)]
pub enum InitState {
    Initialized,
    MaybeUninitialized,
    Uninitialized,
}

#[derive(Debug, Clone, Copy, PartialEq, Eq, Structural)]
pub enum OwnershipState {
    Owned,
    MaybeMoved,
    Moved,
}

/// What is known of one variable.
#[derive(Debug, Clone, Copy, PartialEq, Eq, Structural)]
pub struct VarState {
    pub init: InitState,
    pub ownership: OwnershipState,
}

impl VarState {
    /// Initialized and owned.
    pub fn available() -> (r: VarState)
        ensures
            r == (VarState { init: InitState::Initialized, ownership: OwnershipState::Owned }),
    {
        VarState { init: InitState::Initialized, ownership: OwnershipState::Owned }
    }

    pub fn is_moved(&self) -> (r: bool)
        ensures
            r == (self.ownership == OwnershipState::Moved),
    {
        matches!(self.ownership, OwnershipState::Moved)
    }

    pub fn is_uninitialized(&self) -> (r: bool)
        ensures
            r == (self.init == InitState::Uninitialized),
    {
        matches!(self.init, InitState::Uninitialized)
    }
}

#[derive(Debug, Clone, Copy, PartialEq, Eq, Structural)]
pub enum BorrowKind {
    Shared,
    Mutable,
}

/// How long a borrow lives: to the end of a region, of a local, or of
/// the call it was made for (named by its borrower).
#[derive(Debug)]
pub enum BorrowLifetime {
    Region(String),
    Local(String),
    Temporary(String),
}

pub enum LifetimeModel {
    Region(Seq<char>),
    Local(Seq<char>),
    Temporary(Seq<char>),
}

impl View for BorrowLifetime {
    type V = LifetimeModel;

    open spec fn view(&self) -> LifetimeModel {
        match self {
            BorrowLifetime::Region(s) => LifetimeModel::Region(s@),
            BorrowLifetime::Local(s) => LifetimeModel::Local(s@),
            BorrowLifetime::Temporary(s) => LifetimeModel::Temporary(s@),
        }
    }
}

impl BorrowLifetime {
    pub fn copy(&self) -> (r: BorrowLifetime)
        ensures
            r@ == self@,
    {
        match self {
            BorrowLifetime::Region(s) => BorrowLifetime::Region(s.clone()),
            BorrowLifetime::Local(s) => BorrowLifetime::Local(s.clone()),
            BorrowLifetime::Temporary(s) => BorrowLifetime::Temporary(s.clone()),
        }
    }

    pub fn same(&self, other: &BorrowLifetime) -> (r: bool)
        ensures
            r == (self@ == other@),
    {
        match self {
            BorrowLifetime::Region(a) => match other { BorrowLifetime::Region(b) => *a == *b, _ => false },
            BorrowLifetime::Local(a) => match other { BorrowLifetime::Local(b) => *a == *b, _ => false },
            BorrowLifetime::Temporary(a) => match other { BorrowLifetime::Temporary(b) => *a == *b, _ => false },
        }
    }
}

/// A live borrow of `place` by `borrower`.
#[derive(Debug)]
pub struct BorrowState {
    pub borrower: String,
    pub place: String,
    pub kind: BorrowKind,
    pub lifetime: BorrowLifetime,
}

pub struct BorrowModel {
    pub borrower: Seq<char>,
    pub place: Seq<char>,
    pub kind: BorrowKind,
    pub lifetime: LifetimeModel,
}

impl View for BorrowState {
    type V = BorrowModel;

    open spec fn view(&self) -> BorrowModel {
        BorrowModel { borrower: self.borrower@, place: self.place@, kind: self.kind, lifetime: self.lifetime@ }
    }
}

impl BorrowState {
    pub fn copy(&self) -> (r: BorrowState)
        ensures
            r@ == self@,
    {
        BorrowState {
            borrower: self.borrower.clone(),
            place: self.place.clone(),
            kind: self.kind,
            lifetime: self.lifetime.copy(),
        }
    }

    pub fn same(&self, other: &BorrowState) -> (r: bool)
        ensures
            r == (self@ == other@),
    {
        self.borrower == other.borrower && self.place == other.place && self.kind == other.kind
            && self.lifetime.same(&other.lifetime)
    }
}

/// The ownership state at a program point.
#[derive(Debug)]
pub struct SemanticState {
    pub vars: Vec<(String, VarState)>,
    pub borrows: Vec<BorrowState>,
    pub region_stack: Vec<String>,
    pub var_region: Vec<(String, String)>,
    pub escapes: Vec<(String, String)>,
}

/// The mathematical form of a state.
pub struct StateModel {
    pub vars: Map<Seq<char>, VarState>,
    pub borrows: Seq<BorrowModel>,
    pub stack: Seq<Seq<char>>,
    pub var_region: Map<Seq<char>, Seq<char>>,
    pub escapes: Seq<(Seq<char>, Seq<char>)>,
}

pub open spec fn var_entries(v: Seq<(String, VarState)>) -> Seq<(Seq<char>, VarState)> {
    Seq::new(v.len(), |i: int| (v[i].0@, v[i].1))
}

pub open spec fn pair_entries(v: Seq<(String, String)>) -> Seq<(Seq<char>, Seq<char>)> {
    Seq::new(v.len(), |i: int| (v[i].0@, v[i].1@))
}

pub open spec fn borrow_views(v: Seq<BorrowState>) -> Seq<BorrowModel> {
    Seq::new(v.len(), |i: int| v[i]@)
}

pub open spec fn string_views(v: Seq<String>) -> Seq<Seq<char>> {
    Seq::new(v.len(), |i: int| v[i]@)
}

impl SemanticState {
    pub open spec fn model(&self) -> StateModel {
        StateModel {
            vars: map_of(var_entries(self.vars@)),
            borrows: borrow_views(self.borrows@),
            stack: string_views(self.region_stack@),
            var_region: map_of(pair_entries(self.var_region@)),
            escapes: pair_entries(self.escapes@),
        }
    }

    /// The variables and regions are each recorded once.
    pub open spec fn wf(&self) -> bool {
        keys_distinct(var_entries(self.vars@)) && keys_distinct(pair_entries(self.var_region@))
    }

    /// The empty state.
    pub fn new() -> (r: SemanticState)
        ensures
            r.wf(),
            r.model() == empty_state(),
    {
        let r = SemanticState {
            vars: Vec::new(),
            borrows: Vec::new(),
            region_stack: Vec::new(),
            var_region: Vec::new(),
            escapes: Vec::new(),
        };
        assert(var_entries(r.vars@) =~= Seq::<(Seq<char>, VarState)>::empty());
        assert(pair_entries(r.var_region@) =~= Seq::<(Seq<char>, Seq<char>)>::empty());
        assert(borrow_views(r.borrows@) =~= Seq::<BorrowModel>::empty());
        assert(pair_entries(r.escapes@) =~= Seq::<(Seq<char>, Seq<char>)>::empty());
        assert(string_views(r.region_stack@) =~= Seq::<Seq<char>>::empty());
        assert(map_of(var_entries(r.vars@)) =~= Map::<Seq<char>, VarState>::empty());
        assert(map_of(pair_entries(r.var_region@)) =~= Map::<Seq<char>, Seq<char>>::empty());
        r
    }
}

pub open spec fn empty_state() -> StateModel {
    StateModel {
        vars: Map::empty(),
        borrows: Seq::empty(),
        stack: Seq::empty(),
        var_region: Map::empty(),
        escapes: Seq::empty(),
    }
}


// ─── Operations, on models ──────────────────────────────────────────

pub open spec fn with_var(m: StateModel, name: Seq<char>, st: VarState) -> StateModel {
    StateModel { vars: m.vars.insert(name, st), ..m }
}

/// Declares `name` with state `st`, in the current region if any.
pub open spec fn declared(m: StateModel, name: Seq<char>, st: VarState) -> StateModel {
    StateModel {
        vars: m.vars.insert(name, st),
        var_region: if m.stack.len() > 0 { m.var_region.insert(name, m.stack.last()) } else { m.var_region },
        ..m
    }
}

pub open spec fn borrowed(m: StateModel, place: Seq<char>) -> bool {
    exists|i: int| 0 <= i < m.borrows.len() && (#[trigger] m.borrows[i]).place == place
}

pub open spec fn mutably_borrowed(m: StateModel, place: Seq<char>) -> bool {
    exists|i: int| 0 <= i < m.borrows.len() && (#[trigger] m.borrows[i]).place == place
        && m.borrows[i].kind == BorrowKind::Mutable
}

/// `name` is moved out, if it is a variable.
pub open spec fn moved_out(m: StateModel, name: Seq<char>) -> StateModel {
    if m.vars.contains_key(name) {
        with_var(m, name, VarState { init: m.vars[name].init, ownership: OwnershipState::Moved })
    } else {
        m
    }
}

/// `borrower` now borrows `place`, replacing any borrow it held.
pub open spec fn with_borrow(m: StateModel, b: BorrowModel) -> StateModel {
    StateModel { borrows: m.borrows.filter(|x: BorrowModel| x.borrower != b.borrower).push(b), ..m }
}

/// The temporary borrows named `id` end.
pub open spec fn temporaries_ended(m: StateModel, id: Seq<char>) -> StateModel {
    StateModel { borrows: m.borrows.filter(|x: BorrowModel| x.lifetime != LifetimeModel::Temporary(id)), ..m }
}

pub open spec fn entered(m: StateModel, name: Seq<char>) -> StateModel {
    StateModel { stack: m.stack.push(name), ..m }
}

/// The region `place` was declared in, if any.
pub open spec fn region_of(m: StateModel, place: Seq<char>) -> Option<Seq<char>> {
    if m.var_region.contains_key(place) { Some(m.var_region[place]) } else { None }
}

/// A borrow of a place declared in region `name` that lives longer.
pub open spec fn outlives(m: StateModel, name: Seq<char>, b: BorrowModel) -> bool {
    region_of(m, b.place) == Some(name) && b.lifetime != LifetimeModel::Region(name) && !(b.lifetime is Temporary)
}

/// A borrow that ends with region `name`.
pub open spec fn ends_with(m: StateModel, name: Seq<char>, b: BorrowModel) -> bool {
    b.lifetime == LifetimeModel::Region(name) || region_of(m, b.place) == Some(name)
}

/// The borrowers whose references outlive region `name`.
pub open spec fn outliving(m: StateModel, name: Seq<char>) -> Seq<Seq<char>> {
    m.borrows.filter(|b: BorrowModel| outlives(m, name, b)).map_values(|b: BorrowModel| b.borrower)
}

/// Leaving region `name`: its borrows end and it is popped if innermost.
pub open spec fn exited(m: StateModel, name: Seq<char>) -> StateModel {
    StateModel {
        borrows: m.borrows.filter(|b: BorrowModel| !ends_with(m, name, b)),
        stack: if m.stack.len() > 0 && m.stack.last() == name { m.stack.drop_last() } else { m.stack },
        ..m
    }
}

pub open spec fn escaped(m: StateModel, from: Seq<char>, to: Seq<char>) -> StateModel {
    StateModel { escapes: m.escapes.push((from, to)), ..m }
}

/// One more element of a filtered prefix.
pub proof fn lemma_filter_step<A>(s: Seq<A>, pred: spec_fn(A) -> bool, i: int)
    requires
        0 <= i < s.len(),
    ensures
        s.take(i + 1).filter(pred) == if pred(s[i]) { s.take(i).filter(pred).push(s[i]) } else { s.take(i).filter(pred) },
{
    reveal(Seq::filter);
    assert(s.take(i + 1).drop_last() =~= s.take(i));
    assert(s.take(i + 1).last() == s[i]);
}

// ─── Operations, executable ─────────────────────────────────────────

impl SemanticState {
    /// The index of the entry for variable `name`, if any.
    pub fn find_var(&self, name: &String) -> (r: Option<usize>)
        requires
            self.wf(),
        ensures
            match r {
                Some(i) => i < self.vars@.len() && self.vars@[i as int].0@ == name@
                    && self.model().vars.contains_key(name@) && self.model().vars[name@] == self.vars@[i as int].1,
                None => !self.model().vars.contains_key(name@),
            },
    {
        let mut i: usize = 0;
        while i < self.vars.len()
            invariant
                0 <= i <= self.vars@.len(),
                self.wf(),
                forall|j: int| 0 <= j < i ==> self.vars@[j].0@ != name@,
            decreases self.vars@.len() - i,
        {
            if self.vars[i].0 == *name {
                proof {
                    assert(var_entries(self.vars@)[i as int].0 == name@);
                    lemma_map_of_index(var_entries(self.vars@), i as int);
                }
                return Some(i);
            }
            i = i + 1;
        }
        proof {
            lemma_map_of_dom(var_entries(self.vars@), name@);
            assert forall|j: int| 0 <= j < var_entries(self.vars@).len() implies #[trigger] var_entries(self.vars@)[j].0 != name@ by {
                assert(var_entries(self.vars@)[j].0 == self.vars@[j].0@);
            }
        }
        None
    }

    /// The state of variable `name`, if it is one.
    pub fn var_state(&self, name: &String) -> (r: Option<VarState>)
        requires
            self.wf(),
        ensures
            match r {
                Some(v) => self.model().vars.contains_key(name@) && self.model().vars[name@] == v,
                None => !self.model().vars.contains_key(name@),
            },
    {
        match self.find_var(name) {
            Some(i) => Some(self.vars[i].1),
            None => None,
        }
    }

    /// Sets the state of `name`.
    pub fn set_var(&mut self, name: &String, st: VarState)
        requires
            old(self).wf(),
        ensures
            final(self).wf(),
            final(self).model() == with_var(old(self).model(), name@, st),
    {
        match self.find_var(name) {
            Some(i) => {
                proof { lemma_map_of_update(var_entries(self.vars@), i as int, st); }
                let ghost before = self.vars@;
                self.vars.set(i, (name.clone(), st));
                assert(var_entries(self.vars@) =~= var_entries(before).update(i as int, (var_entries(before)[i as int].0, st)));
            },
            None => {
                proof {
                    lemma_map_of_dom(var_entries(self.vars@), name@);
                    lemma_keys_distinct_push(var_entries(self.vars@), (name@, st));
                }
                let ghost before = self.vars@;
                self.vars.push((name.clone(), st));
                assert(var_entries(self.vars@) =~= var_entries(before).push((name@, st)));
            },
        }
        assert(self.model() =~= with_var(old(self).model(), name@, st));
    }

    /// Records that `name` was declared in region `region`.
    fn set_region(&mut self, name: &String, region: &String)
        requires
            old(self).wf(),
        ensures
            final(self).wf(),
            final(self).model() == (StateModel { var_region: old(self).model().var_region.insert(name@, region@), ..old(self).model() }),
    {
        let mut i: usize = 0;
        while i < self.var_region.len()
            invariant
                0 <= i <= self.var_region@.len(),
                self.wf(),
                *self == *old(self),
                forall|j: int| 0 <= j < i ==> self.var_region@[j].0@ != name@,
            decreases self.var_region@.len() - i,
        {
            if self.var_region[i].0 == *name {
                proof { lemma_map_of_update(pair_entries(self.var_region@), i as int, region@); }
                let ghost before = self.var_region@;
                self.var_region.set(i, (name.clone(), region.clone()));
                assert(pair_entries(self.var_region@) =~= pair_entries(before).update(i as int, (pair_entries(before)[i as int].0, region@)));
                assert(self.model() =~= (StateModel { var_region: old(self).model().var_region.insert(name@, region@), ..old(self).model() }));
                return;
            }
            i = i + 1;
        }
        proof {
            assert forall|j: int| 0 <= j < pair_entries(self.var_region@).len() implies #[trigger] pair_entries(self.var_region@)[j].0 != name@ by {
                assert(pair_entries(self.var_region@)[j].0 == self.var_region@[j].0@);
            }
            lemma_keys_distinct_push(pair_entries(self.var_region@), (name@, region@));
        }
        let ghost before = self.var_region@;
        self.var_region.push((name.clone(), region.clone()));
        assert(pair_entries(self.var_region@) =~= pair_entries(before).push((name@, region@)));
        assert(self.model() =~= (StateModel { var_region: old(self).model().var_region.insert(name@, region@), ..old(self).model() }));
    }

    /// Declares `name` with state `st` in the current region, if any.
    pub fn declare(&mut self, name: &String, st: VarState)
        requires
            old(self).wf(),
        ensures
            final(self).wf(),
            final(self).model() == declared(old(self).model(), name@, st),
    {
        self.set_var(name, st);
        let n = self.region_stack.len();
        if n > 0 {
            let r = self.region_stack[n - 1].clone();
            self.set_region(name, &r);
        }
        assert(self.model() =~= declared(old(self).model(), name@, st));
    }

    /// Whether some live borrow is of `place`.
    pub fn is_borrowed(&self, place: &String) -> (r: bool)
        ensures
            r == borrowed(self.model(), place@),
    {
        let mut i: usize = 0;
        while i < self.borrows.len()
            invariant
                0 <= i <= self.borrows@.len(),
                forall|j: int| 0 <= j < i ==> self.borrows@[j].place@ != place@,
            decreases self.borrows@.len() - i,
        {
            if self.borrows[i].place == *place {
                assert(self.model().borrows[i as int].place == place@);
                return true;
            }
            i = i + 1;
        }
        assert forall|j: int| 0 <= j < self.model().borrows.len() implies (#[trigger] self.model().borrows[j]).place != place@ by {
            assert(self.model().borrows[j] == self.borrows@[j]@);
        }
        false
    }

    /// Whether some live mutable borrow is of `place`.
    pub fn is_mutably_borrowed(&self, place: &String) -> (r: bool)
        ensures
            r == mutably_borrowed(self.model(), place@),
    {
        let mut i: usize = 0;
        while i < self.borrows.len()
            invariant
                0 <= i <= self.borrows@.len(),
                forall|j: int| 0 <= j < i ==> !(self.borrows@[j].place@ == place@ && self.borrows@[j].kind == BorrowKind::Mutable),
            decreases self.borrows@.len() - i,
        {
            if self.borrows[i].place == *place && matches!(self.borrows[i].kind, BorrowKind::Mutable) {
                assert(self.model().borrows[i as int].place == place@);
                return true;
            }
            i = i + 1;
        }
        assert forall|j: int| 0 <= j < self.model().borrows.len() implies !((#[trigger] self.model().borrows[j]).place == place@
            && self.model().borrows[j].kind == BorrowKind::Mutable) by {
            assert(self.model().borrows[j] == self.borrows@[j]@);
        }
        false
    }

    /// Moves `name` out, if it is a variable.
    pub fn move_out(&mut self, name: &String)
        requires
            old(self).wf(),
        ensures
            final(self).wf(),
            final(self).model() == moved_out(old(self).model(), name@),
    {
        match self.var_state(name) {
            Some(v) => {
                self.set_var(name, VarState { init: v.init, ownership: OwnershipState::Moved });
            },
            None => {},
        }
    }

    /// `borrower` borrows `place`, replacing any borrow it held.
    pub fn borrow(&mut self, borrower: &String, place: &String, kind: BorrowKind, lifetime: BorrowLifetime)
        requires
            old(self).wf(),
        ensures
            final(self).wf(),
            final(self).model() == with_borrow(old(self).model(),
                BorrowModel { borrower: borrower@, place: place@, kind: kind, lifetime: lifetime@ }),
    {
        let ghost src = borrow_views(self.borrows@);
        let ghost pred = |x: BorrowModel| x.borrower != borrower@;
        let mut kept: Vec<BorrowState> = Vec::new();
        let mut i: usize = 0;
        assert(src.take(0) =~= Seq::<BorrowModel>::empty());
        while i < self.borrows.len()
            invariant
                0 <= i <= self.borrows@.len(),
                src == borrow_views(self.borrows@),
                pred == (|x: BorrowModel| x.borrower != borrower@),
                borrow_views(kept@) == src.take(i as int).filter(pred),
            decreases self.borrows@.len() - i,
        {
            proof { lemma_filter_step(src, pred, i as int); }
            assert(self.borrows@[i as int]@ == src[i as int]);
            if self.borrows[i].borrower != *borrower {
                let ghost before = borrow_views(kept@);
                kept.push(self.borrows[i].copy());
                assert(borrow_views(kept@) =~= before.push(src[i as int]));
            }
            i = i + 1;
        }
        assert(src.take(src.len() as int) =~= src);
        let ghost before = borrow_views(kept@);
        let ghost lv = lifetime@;
        kept.push(BorrowState { borrower: borrower.clone(), place: place.clone(), kind, lifetime });
        assert(borrow_views(kept@) =~= before.push(BorrowModel { borrower: borrower@, place: place@, kind: kind, lifetime: lv }));
        self.borrows = kept;
        assert(self.model() =~= with_borrow(old(self).model(),
            BorrowModel { borrower: borrower@, place: place@, kind: kind, lifetime: lv }));
    }

    /// The temporary borrows named `id` end.
    pub fn end_temporary_borrows(&mut self, id: &String)
        requires
            old(self).wf(),
        ensures
            final(self).wf(),
            final(self).model() == temporaries_ended(old(self).model(), id@),
    {
        let ghost src = borrow_views(self.borrows@);
        let ghost pred = |x: BorrowModel| x.lifetime != LifetimeModel::Temporary(id@);
        let mut kept: Vec<BorrowState> = Vec::new();
        let mut i: usize = 0;
        assert(src.take(0) =~= Seq::<BorrowModel>::empty());
        while i < self.borrows.len()
            invariant
                0 <= i <= self.borrows@.len(),
                src == borrow_views(self.borrows@),
                pred == (|x: BorrowModel| x.lifetime != LifetimeModel::Temporary(id@)),
                borrow_views(kept@) == src.take(i as int).filter(pred),
            decreases self.borrows@.len() - i,
        {
            proof { lemma_filter_step(src, pred, i as int); }
            assert(self.borrows@[i as int]@ == src[i as int]);
            let is_it = match &self.borrows[i].lifetime {
                BorrowLifetime::Temporary(t) => *t == *id,
                _ => false,
            };
            if !is_it {
                let ghost before = borrow_views(kept@);
                kept.push(self.borrows[i].copy());
                assert(borrow_views(kept@) =~= before.push(src[i as int]));
            }
            i = i + 1;
        }
        assert(src.take(src.len() as int) =~= src);
        self.borrows = kept;
        assert(self.model() =~= temporaries_ended(old(self).model(), id@));
    }

    pub fn enter_region(&mut self, name: &String)
        requires
            old(self).wf(),
        ensures
            final(self).wf(),
            final(self).model() == entered(old(self).model(), name@),
    {
        self.region_stack.push(name.clone());
        assert(string_views(self.region_stack@) =~= string_views(old(self).region_stack@).push(name@));
        assert(self.model() =~= entered(old(self).model(), name@));
    }

    /// The innermost region, if any.
    pub fn current_region(&self) -> (r: Option<String>)
        ensures
            match r {
                Some(s) => self.model().stack.len() > 0 && s@ == self.model().stack.last(),
                None => self.model().stack.len() == 0,
            },
    {
        let n = self.region_stack.len();
        if n > 0 {
            Some(self.region_stack[n - 1].clone())
        } else {
            None
        }
    }

    /// The region `place` was declared in, if any.
    pub fn region_of_var(&self, place: &String) -> (r: Option<String>)
        requires
            self.wf(),
        ensures
            match r {
                Some(s) => region_of(self.model(), place@) == Some(s@),
                None => region_of(self.model(), place@) is None,
            },
    {
        let mut i: usize = 0;
        while i < self.var_region.len()
            invariant
                0 <= i <= self.var_region@.len(),
                self.wf(),
                forall|j: int| 0 <= j < i ==> self.var_region@[j].0@ != place@,
            decreases self.var_region@.len() - i,
        {
            if self.var_region[i].0 == *place {
                proof {
                    assert(pair_entries(self.var_region@)[i as int].0 == place@);
                    lemma_map_of_index(pair_entries(self.var_region@), i as int);
                }
                return Some(self.var_region[i].1.clone());
            }
            i = i + 1;
        }
        proof {
            lemma_map_of_dom(pair_entries(self.var_region@), place@);
            assert forall|j: int| 0 <= j < pair_entries(self.var_region@).len() implies #[trigger] pair_entries(self.var_region@)[j].0 != place@ by {
                assert(pair_entries(self.var_region@)[j].0 == self.var_region@[j].0@);
            }
        }
        None
    }

    /// Records that `from` escaped to `to`.
    pub fn mark_escape(&mut self, from: &String, to: &String)
        requires
            old(self).wf(),
        ensures
            final(self).wf(),
            final(self).model() == escaped(old(self).model(), from@, to@),
    {
        self.escapes.push((from.clone(), to.clone()));
        assert(pair_entries(self.escapes@) =~= pair_entries(old(self).escapes@).push((from@, to@)));
        assert(self.model() =~= escaped(old(self).model(), from@, to@));
    }
}


// ─── Leaving a region ───────────────────────────────────────────────

impl SemanticState {
    /// Leaves region `name`: the borrowers whose references outlive it,
    /// in borrow order; its borrows end and it is popped if innermost.
    pub fn exit_region(&mut self, name: &String) -> (r: Vec<String>)
        requires
            old(self).wf(),
        ensures
            final(self).wf(),
            string_views(r@) == outliving(old(self).model(), name@),
            final(self).model() == exited(old(self).model(), name@),
    {
        let ghost m = self.model();
        let ghost src = m.borrows;
        let ghost p_out = |b: BorrowModel| outlives(m, name@, b);
        let ghost p_keep = |b: BorrowModel| !ends_with(m, name@, b);
        let ghost f = |b: BorrowModel| b.borrower;
        let mut out: Vec<String> = Vec::new();
        let mut kept: Vec<BorrowState> = Vec::new();
        let mut i: usize = 0;
        assert(src.take(0) =~= Seq::<BorrowModel>::empty());
        proof { reveal(Seq::filter); }
        assert(string_views(out@) =~= src.take(0).filter(p_out).map_values(f));
        while i < self.borrows.len()
            invariant
                0 <= i <= self.borrows@.len(),
                self.wf(),
                *self == *old(self),
                m == self.model(),
                src == m.borrows,
                p_out == (|b: BorrowModel| outlives(m, name@, b)),
                p_keep == (|b: BorrowModel| !ends_with(m, name@, b)),
                f == (|b: BorrowModel| b.borrower),
                string_views(out@) == src.take(i as int).filter(p_out).map_values(f),
                borrow_views(kept@) == src.take(i as int).filter(p_keep),
            decreases self.borrows@.len() - i,
        {
            proof {
                lemma_filter_step(src, p_out, i as int);
                lemma_filter_step(src, p_keep, i as int);
            }
            let b = &self.borrows[i];
            assert(b@ == src[i as int]);
            let region = self.region_of_var(&b.place);
            let in_region = match &region {
                Some(r) => *r == *name,
                None => false,
            };
            let is_region_lifetime = match &b.lifetime {
                BorrowLifetime::Region(r) => *r == *name,
                _ => false,
            };
            let is_temp = matches!(b.lifetime, BorrowLifetime::Temporary(_));
            if in_region && !is_region_lifetime && !is_temp {
                let ghost before = out@;
                out.push(b.borrower.clone());
                proof {
                    let fl = src.take(i as int).filter(p_out);
                    assert(fl.push(src[i as int]).map_values(f) =~= fl.map_values(f).push(f(src[i as int])));
                }
                assert(string_views(out@) =~= string_views(before).push(b.borrower@));
            }
            if !(is_region_lifetime || in_region) {
                let ghost before = borrow_views(kept@);
                kept.push(b.copy());
                assert(borrow_views(kept@) =~= before.push(src[i as int]));
            }
            i = i + 1;
        }
        assert(src.take(src.len() as int) =~= src);
        self.borrows = kept;
        let n = self.region_stack.len();
        if n > 0 && self.region_stack[n - 1] == *name {
            let _ = self.region_stack.pop();
            assert(string_views(self.region_stack@) =~= m.stack.drop_last());
        }
        assert(self.model() =~= exited(m, name@));
        out
    }
}


// ─── Joining the states of two paths ────────────────────────────────

pub open spec fn join_init(x: InitState, y: InitState) -> InitState {
    if x == y { x } else { InitState::MaybeUninitialized }
}

pub open spec fn join_own(x: OwnershipState, y: OwnershipState) -> OwnershipState {
    if x == y { x } else { OwnershipState::MaybeMoved }
}

/// A variable known on both paths.
pub open spec fn join_var(x: VarState, y: VarState) -> VarState {
    VarState { init: join_init(x.init, y.init), ownership: join_own(x.ownership, y.ownership) }
}

/// A variable declared on one path only: uninitialized on the other.
pub open spec fn one_sided(x: VarState) -> VarState {
    VarState { init: join_init(x.init, InitState::Uninitialized), ownership: x.ownership }
}

pub open spec fn joined_vars(a: Map<Seq<char>, VarState>, b: Map<Seq<char>, VarState>) -> Map<Seq<char>, VarState> {
    Map::new(
        |k: Seq<char>| a.contains_key(k) || b.contains_key(k),
        |k: Seq<char>| if a.contains_key(k) && b.contains_key(k) {
            join_var(a[k], b[k])
        } else if a.contains_key(k) {
            one_sided(a[k])
        } else {
            one_sided(b[k])
        },
    )
}

/// The state where two paths meet: variables joined, the borrows and
/// escapes of both (those of `a` first), `a`'s regions, and each
/// variable's region from `a` if it has one there.
pub open spec fn state_join(a: StateModel, b: StateModel) -> StateModel {
    StateModel {
        vars: joined_vars(a.vars, b.vars),
        borrows: a.borrows + b.borrows.filter(|x: BorrowModel| !a.borrows.contains(x)),
        stack: a.stack,
        var_region: b.var_region.union_prefer_right(a.var_region),
        escapes: a.escapes + b.escapes.filter(|x: (Seq<char>, Seq<char>)| !a.escapes.contains(x)),
    }
}

fn join_var_exec(x: VarState, y: VarState) -> (r: VarState)
    ensures
        r == join_var(x, y),
{
    VarState {
        init: if x.init == y.init { x.init } else { InitState::MaybeUninitialized },
        ownership: if x.ownership == y.ownership { x.ownership } else { OwnershipState::MaybeMoved },
    }
}

fn one_sided_exec(x: VarState) -> (r: VarState)
    ensures
        r == one_sided(x),
{
    VarState {
        init: if x.init == InitState::Uninitialized { x.init } else { InitState::MaybeUninitialized },
        ownership: x.ownership,
    }
}

/// The map of entries with distinct keys, entry by entry.
proof fn lemma_map_of_entries<V>(s: Seq<(Seq<char>, V)>, k: Seq<char>)
    requires
        keys_distinct(s),
    ensures
        map_of(s).contains_key(k) <==> exists|i: int| 0 <= i < s.len() && #[trigger] s[i].0 == k,
        forall|i: int| 0 <= i < s.len() && #[trigger] s[i].0 == k ==> map_of(s)[k] == s[i].1,
{
    lemma_map_of_dom(s, k);
    assert forall|i: int| 0 <= i < s.len() && #[trigger] s[i].0 == k implies map_of(s)[k] == s[i].1 by {
        lemma_map_of_index(s, i);
    }
}

impl SemanticState {
    /// A copy with the same model.
    pub fn copy(&self) -> (r: SemanticState)
        ensures
            r.model() == self.model(),
            r.wf() == self.wf(),
    {
        let mut vars: Vec<(String, VarState)> = Vec::new();
        let mut i: usize = 0;
        while i < self.vars.len()
            invariant
                0 <= i <= self.vars@.len(),
                vars@.len() == i,
                forall|j: int| 0 <= j < i ==> (#[trigger] vars@[j]).0@ == self.vars@[j].0@ && vars@[j].1 == self.vars@[j].1,
            decreases self.vars@.len() - i,
        {
            vars.push((self.vars[i].0.clone(), self.vars[i].1));
            i = i + 1;
        }
        let mut borrows: Vec<BorrowState> = Vec::new();
        let mut i: usize = 0;
        while i < self.borrows.len()
            invariant
                0 <= i <= self.borrows@.len(),
                borrows@.len() == i,
                forall|j: int| 0 <= j < i ==> (#[trigger] borrows@[j])@ == self.borrows@[j]@,
            decreases self.borrows@.len() - i,
        {
            borrows.push(self.borrows[i].copy());
            i = i + 1;
        }
        let r = SemanticState {
            vars,
            borrows,
            region_stack: copy_strings(&self.region_stack),
            var_region: copy_pairs(&self.var_region),
            escapes: copy_pairs(&self.escapes),
        };
        assert(var_entries(r.vars@) =~= var_entries(self.vars@));
        assert(borrow_views(r.borrows@) =~= borrow_views(self.borrows@));
        r
    }
}

fn copy_strings(v: &Vec<String>) -> (r: Vec<String>)
    ensures
        string_views(r@) == string_views(v@),
{
    let mut out: Vec<String> = Vec::new();
    let mut i: usize = 0;
    while i < v.len()
        invariant
            0 <= i <= v@.len(),
            out@.len() == i,
            forall|j: int| 0 <= j < i ==> (#[trigger] out@[j])@ == v@[j]@,
        decreases v@.len() - i,
    {
        out.push(v[i].clone());
        i = i + 1;
    }
    assert(string_views(out@) =~= string_views(v@));
    out
}

fn copy_pairs(v: &Vec<(String, String)>) -> (r: Vec<(String, String)>)
    ensures
        pair_entries(r@) == pair_entries(v@),
{
    let mut out: Vec<(String, String)> = Vec::new();
    let mut i: usize = 0;
    while i < v.len()
        invariant
            0 <= i <= v@.len(),
            out@.len() == i,
            forall|j: int| 0 <= j < i ==> (#[trigger] out@[j]).0@ == v@[j].0@ && out@[j].1@ == v@[j].1@,
        decreases v@.len() - i,
    {
        out.push((v[i].0.clone(), v[i].1.clone()));
        i = i + 1;
    }
    assert(pair_entries(out@) =~= pair_entries(v@));
    out
}


/// The value a variable of `a` takes in the join with `b`.
pub open spec fn joined_value(am: Map<Seq<char>, VarState>, bm: Map<Seq<char>, VarState>, k: Seq<char>, v: VarState) -> VarState {
    if bm.contains_key(k) { join_var(v, bm[k]) } else { one_sided(v) }
}

#[verifier::rlimit(40)]
#[verifier::spinoff_prover]
fn join_vars(a: &SemanticState, b: &SemanticState) -> (r: Vec<(String, VarState)>)
    requires
        a.wf(),
        b.wf(),
    ensures
        keys_distinct(var_entries(r@)),
        map_of(var_entries(r@)) == joined_vars(a.model().vars, b.model().vars),
{
    let ghost am = a.model().vars;
    let ghost bm = b.model().vars;
    let ghost ae = var_entries(a.vars@);
    let ghost be = var_entries(b.vars@);
    let mut out: Vec<(String, VarState)> = Vec::new();
    let mut i: usize = 0;
    while i < a.vars.len()
        invariant
            0 <= i <= a.vars@.len(),
            a.wf(),
            b.wf(),
            am == a.model().vars,
            bm == b.model().vars,
            ae == var_entries(a.vars@),
            out@.len() == i,
            forall|p: int| 0 <= p < i ==> (#[trigger] out@[p]).0@ == ae[p].0
                && out@[p].1 == joined_value(am, bm, ae[p].0, ae[p].1),
        decreases a.vars@.len() - i,
    {
        let k = &a.vars[i].0;
        let v = a.vars[i].1;
        let nv = match b.var_state(k) {
            Some(w) => join_var_exec(v, w),
            None => one_sided_exec(v),
        };
        out.push((k.clone(), nv));
        i = i + 1;
    }
    let na = a.vars.len();
    let ghost mut gi: Seq<int> = Seq::empty();
    let ghost mut pos: Seq<int> = Seq::empty();
    let mut j: usize = 0;
    while j < b.vars.len()
        invariant
            0 <= j <= b.vars@.len(),
            na == a.vars@.len(),
            a.wf(),
            b.wf(),
            am == a.model().vars,
            bm == b.model().vars,
            ae == var_entries(a.vars@),
            be == var_entries(b.vars@),
            out@.len() == na + gi.len(),
            pos.len() == j,
            forall|p: int| 0 <= p < na ==> (#[trigger] out@[p]).0@ == ae[p].0
                && out@[p].1 == joined_value(am, bm, ae[p].0, ae[p].1),
            forall|x: int| 0 <= x < gi.len() ==> 0 <= #[trigger] gi[x] < j
                && be[gi[x]].0 == out@[na + x].0@
                && !am.contains_key(out@[na + x].0@)
                && bm.contains_key(out@[na + x].0@)
                && out@[na + x].1 == one_sided(bm[out@[na + x].0@]),
            forall|x: int, y: int| 0 <= x < y < gi.len() ==> #[trigger] gi[x] < #[trigger] gi[y],
            forall|jj: int| 0 <= jj < j ==> am.contains_key(#[trigger] be[jj].0)
                || (na <= pos[jj] < out@.len() && out@[pos[jj]].0@ == be[jj].0),
        decreases b.vars@.len() - j,
    {
        let k = &b.vars[j].0;
        let w = b.vars[j].1;
        assert(be[j as int] == (k@, w));
        proof {
            lemma_map_of_entries(be, k@);
            assert(be[j as int].0 == k@);
        }
        match a.find_var(k) {
            Some(_) => {
                proof { pos = pos.push(0); }
            },
            None => {
                assert(bm.contains_key(k@));
                assert(bm[k@] == w);
                assert(!am.contains_key(k@));
                let ghost old_gi = gi;
                proof {
                    pos = pos.push(out@.len() as int);
                    gi = gi.push(j as int);
                }
                let ghost old_out = out@;
                out.push((k.clone(), one_sided_exec(w)));
                assert forall|x: int| 0 <= x < gi.len() implies 0 <= #[trigger] gi[x] < j + 1
                    && be[gi[x]].0 == out@[na + x].0@
                    && !am.contains_key(out@[na + x].0@)
                    && bm.contains_key(out@[na + x].0@)
                    && out@[na + x].1 == one_sided(bm[out@[na + x].0@]) by {
                    if x < gi.len() - 1 {
                        assert(gi[x] == old_gi[x]);
                        assert(old_gi[x] < j);
                        assert(out@[na + x] == old_out[na + x]);
                    } else {
                        assert(gi[x] == j);
                        assert(out@[na + x].0@ == k@);
                    }
                }
            },
        }
        j = j + 1;
    }
    proof {
        assert forall|x: int, y: int| na <= x < y < out@.len() implies out@[x].0@ != out@[y].0@ by {
            assert(gi[x - na] < gi[y - na]);
            assert(be[gi[x - na]].0 == out@[x].0@);
            assert(be[gi[y - na]].0 == out@[y].0@);
        }
        assert forall|q: int| na <= q < out@.len() implies !am.contains_key(out@[q].0@) && bm.contains_key(out@[q].0@)
            && out@[q].1 == one_sided(bm[out@[q].0@]) by {
            assert(gi[q - na] >= 0);
            assert(na + (q - na) == q);
        }
    }
    let ghost oe = var_entries(out@);
    proof {
        assert(keys_distinct(oe)) by {
            assert forall|x: int, y: int| 0 <= x < y < oe.len() implies #[trigger] oe[x].0 != #[trigger] oe[y].0 by {
                if y < na {
                    assert(oe[x].0 == ae[x].0 && oe[y].0 == ae[y].0);
                } else if x < na {
                    lemma_map_of_entries(ae, ae[x].0);
                    assert(am.contains_key(ae[x].0));
                    assert(!am.contains_key(out@[y].0@));
                } else {
                    assert(out@[x].0@ != out@[y].0@);
                }
            }
        }
        assert forall|k: Seq<char>| #[trigger] map_of(oe).contains_key(k) == joined_vars(am, bm).contains_key(k)
            && (map_of(oe).contains_key(k) ==> map_of(oe)[k] == joined_vars(am, bm)[k]) by {
            lemma_map_of_entries(oe, k);
            lemma_map_of_entries(ae, k);
            lemma_map_of_entries(be, k);
            if am.contains_key(k) {
                let p = choose|p: int| 0 <= p < ae.len() && #[trigger] ae[p].0 == k;
                assert(oe[p].0 == k);
                assert(am[k] == ae[p].1);
                assert(map_of(oe)[k] == oe[p].1);
            } else if bm.contains_key(k) {
                let jj = choose|jj: int| 0 <= jj < be.len() && #[trigger] be[jj].0 == k;
                let q = pos[jj];
                assert(oe[q].0 == k);
                assert(map_of(oe)[k] == oe[q].1);
            } else if map_of(oe).contains_key(k) {
                let q = choose|q: int| 0 <= q < oe.len() && #[trigger] oe[q].0 == k;
                if q < na {
                    assert(ae[q].0 == k);
                } else {
                    assert(bm.contains_key(out@[q].0@));
                }
            }
        }
        assert(map_of(oe) =~= joined_vars(am, bm));
    }
    out
}


/// Entries of `a`, then those of `b` whose key `a` lacks.
#[verifier::rlimit(40)]
#[verifier::spinoff_prover]
fn union_pairs(a: &Vec<(String, String)>, b: &Vec<(String, String)>) -> (r: Vec<(String, String)>)
    requires
        keys_distinct(pair_entries(a@)),
        keys_distinct(pair_entries(b@)),
    ensures
        keys_distinct(pair_entries(r@)),
        map_of(pair_entries(r@)) == map_of(pair_entries(b@)).union_prefer_right(map_of(pair_entries(a@))),
{
    let ghost ae = pair_entries(a@);
    let ghost be = pair_entries(b@);
    let ghost am = map_of(ae);
    let ghost bm = map_of(be);
    let mut out = copy_pairs(a);
    let na = a.len();
    let ghost mut gi: Seq<int> = Seq::empty();
    let ghost mut pos: Seq<int> = Seq::empty();
    let mut j: usize = 0;
    while j < b.len()
        invariant
            0 <= j <= b@.len(),
            na == a@.len(),
            keys_distinct(ae),
            keys_distinct(be),
            ae == pair_entries(a@),
            be == pair_entries(b@),
            am == map_of(ae),
            bm == map_of(be),
            out@.len() == na + gi.len(),
            pos.len() == j,
            forall|p: int| 0 <= p < na ==> (#[trigger] out@[p]).0@ == ae[p].0 && out@[p].1@ == ae[p].1,
            forall|x: int| 0 <= x < gi.len() ==> 0 <= #[trigger] gi[x] < j
                && be[gi[x]] == (out@[na + x].0@, out@[na + x].1@)
                && !am.contains_key(out@[na + x].0@),
            forall|x: int, y: int| 0 <= x < y < gi.len() ==> #[trigger] gi[x] < #[trigger] gi[y],
            forall|jj: int| 0 <= jj < j ==> am.contains_key(#[trigger] be[jj].0)
                || (na <= pos[jj] < out@.len() && out@[pos[jj]].0@ == be[jj].0),
        decreases b@.len() - j,
    {
        let k = &b[j].0;
        assert(be[j as int].0 == k@);
        let mut found = false;
        let mut i: usize = 0;
        while i < a.len()
            invariant
                0 <= i <= a@.len(),
                ae == pair_entries(a@),
                !found ==> forall|p: int| 0 <= p < i ==> ae[p].0 != k@,
                found ==> exists|p: int| 0 <= p < a@.len() && ae[p].0 == k@,
            decreases a@.len() - i,
        {
            if a[i].0 == *k {
                assert(ae[i as int].0 == k@);
                found = true;
            }
            i = i + 1;
        }
        proof { lemma_map_of_entries(ae, k@); }
        if found {
            proof { pos = pos.push(0); }
        } else {
            let ghost old_gi = gi;
            let ghost old_out = out@;
            proof {
                pos = pos.push(out@.len() as int);
                gi = gi.push(j as int);
            }
            out.push((k.clone(), b[j].1.clone()));
            assert forall|x: int| 0 <= x < gi.len() implies 0 <= #[trigger] gi[x] < j + 1
                && be[gi[x]] == (out@[na + x].0@, out@[na + x].1@)
                && !am.contains_key(out@[na + x].0@) by {
                if x < gi.len() - 1 {
                    assert(gi[x] == old_gi[x]);
                    assert(old_gi[x] < j);
                    assert(out@[na + x] == old_out[na + x]);
                } else {
                    assert(gi[x] == j);
                }
            }
        }
        j = j + 1;
    }
    let ghost oe = pair_entries(out@);
    proof {
        assert forall|x: int, y: int| 0 <= x < y < oe.len() implies #[trigger] oe[x].0 != #[trigger] oe[y].0 by {
            if y < na {
                assert(oe[x].0 == ae[x].0 && oe[y].0 == ae[y].0);
            } else if x < na {
                lemma_map_of_entries(ae, ae[x].0);
                assert(gi[y - na] >= 0);
                assert(na + (y - na) == y);
            } else {
                assert(gi[x - na] < gi[y - na]);
                assert(na + (x - na) == x);
                assert(na + (y - na) == y);
            }
        }
        let um = bm.union_prefer_right(am);
        assert forall|k: Seq<char>| #[trigger] map_of(oe).contains_key(k) == um.contains_key(k)
            && (map_of(oe).contains_key(k) ==> map_of(oe)[k] == um[k]) by {
            lemma_map_of_entries(oe, k);
            lemma_map_of_entries(ae, k);
            lemma_map_of_entries(be, k);
            if am.contains_key(k) {
                let p = choose|p: int| 0 <= p < ae.len() && #[trigger] ae[p].0 == k;
                assert(oe[p].0 == k);
                assert(map_of(oe)[k] == oe[p].1);
            } else if bm.contains_key(k) {
                let jj = choose|jj: int| 0 <= jj < be.len() && #[trigger] be[jj].0 == k;
                let q = pos[jj];
                assert(oe[q].0 == k);
                assert(map_of(oe)[k] == oe[q].1);
                assert(gi[q - na] >= 0);
                assert(na + (q - na) == q);
                assert(be[gi[q - na]].0 == k);
                assert(bm[k] == be[gi[q - na]].1);
            } else if map_of(oe).contains_key(k) {
                let q = choose|q: int| 0 <= q < oe.len() && #[trigger] oe[q].0 == k;
                if q < na {
                    assert(ae[q].0 == k);
                } else {
                    assert(gi[q - na] >= 0);
                    assert(na + (q - na) == q);
                }
            }
        }
        assert(map_of(oe) =~= um);
    }
    out
}


fn contains_borrow(v: &Vec<BorrowState>, x: &BorrowState) -> (r: bool)
    ensures
        r == borrow_views(v@).contains(x@),
{
    let mut i: usize = 0;
    while i < v.len()
        invariant
            0 <= i <= v@.len(),
            forall|j: int| 0 <= j < i ==> v@[j]@ != x@,
        decreases v@.len() - i,
    {
        if v[i].same(x) {
            assert(borrow_views(v@)[i as int] == x@);
            return true;
        }
        i = i + 1;
    }
    assert forall|j: int| 0 <= j < borrow_views(v@).len() implies borrow_views(v@)[j] != x@ by {
        assert(borrow_views(v@)[j] == v@[j]@);
    }
    false
}

fn contains_pair(v: &Vec<(String, String)>, x: &(String, String)) -> (r: bool)
    ensures
        r == pair_entries(v@).contains((x.0@, x.1@)),
{
    let mut i: usize = 0;
    while i < v.len()
        invariant
            0 <= i <= v@.len(),
            forall|j: int| 0 <= j < i ==> (v@[j].0@, v@[j].1@) != (x.0@, x.1@),
        decreases v@.len() - i,
    {
        if v[i].0 == x.0 && v[i].1 == x.1 {
            assert(pair_entries(v@)[i as int] == (x.0@, x.1@));
            return true;
        }
        i = i + 1;
    }
    assert forall|j: int| 0 <= j < pair_entries(v@).len() implies pair_entries(v@)[j] != (x.0@, x.1@) by {
        assert(pair_entries(v@)[j] == (v@[j].0@, v@[j].1@));
    }
    false
}

/// The borrows of `a`, then those of `b` not among them.
fn merge_borrows(a: &Vec<BorrowState>, b: &Vec<BorrowState>) -> (r: Vec<BorrowState>)
    ensures
        borrow_views(r@) == borrow_views(a@) + borrow_views(b@).filter(|x: BorrowModel| !borrow_views(a@).contains(x)),
{
    let ghost av = borrow_views(a@);
    let ghost bv = borrow_views(b@);
    let ghost pred = |x: BorrowModel| !av.contains(x);
    let mut out: Vec<BorrowState> = Vec::new();
    let mut i: usize = 0;
    while i < a.len()
        invariant
            0 <= i <= a@.len(),
            out@.len() == i,
            forall|j: int| 0 <= j < i ==> (#[trigger] out@[j])@ == a@[j]@,
        decreases a@.len() - i,
    {
        out.push(a[i].copy());
        i = i + 1;
    }
    assert(borrow_views(out@) =~= av);
    let mut j: usize = 0;
    assert(bv.take(0) =~= Seq::<BorrowModel>::empty());
    proof { reveal(Seq::filter); }
    assert(av + bv.take(0).filter(pred) =~= av);
    while j < b.len()
        invariant
            0 <= j <= b@.len(),
            av == borrow_views(a@),
            bv == borrow_views(b@),
            pred == (|x: BorrowModel| !av.contains(x)),
            borrow_views(out@) == av + bv.take(j as int).filter(pred),
        decreases b@.len() - j,
    {
        proof { lemma_filter_step(bv, pred, j as int); }
        assert(b@[j as int]@ == bv[j as int]);
        if !contains_borrow(a, &b[j]) {
            let ghost before = borrow_views(out@);
            out.push(b[j].copy());
            assert(borrow_views(out@) =~= before.push(bv[j as int]));
            assert(av + bv.take(j as int).filter(pred).push(bv[j as int]) =~= (av + bv.take(j as int).filter(pred)).push(bv[j as int]));
        }
        j = j + 1;
    }
    assert(bv.take(bv.len() as int) =~= bv);
    out
}

/// The escapes of `a`, then those of `b` not among them.
fn merge_escapes(a: &Vec<(String, String)>, b: &Vec<(String, String)>) -> (r: Vec<(String, String)>)
    ensures
        pair_entries(r@) == pair_entries(a@) + pair_entries(b@).filter(|x: (Seq<char>, Seq<char>)| !pair_entries(a@).contains(x)),
{
    let ghost av = pair_entries(a@);
    let ghost bv = pair_entries(b@);
    let ghost pred = |x: (Seq<char>, Seq<char>)| !av.contains(x);
    let mut out = copy_pairs(a);
    let mut j: usize = 0;
    assert(bv.take(0) =~= Seq::<(Seq<char>, Seq<char>)>::empty());
    proof { reveal(Seq::filter); }
    assert(av + bv.take(0).filter(pred) =~= av);
    while j < b.len()
        invariant
            0 <= j <= b@.len(),
            av == pair_entries(a@),
            bv == pair_entries(b@),
            pred == (|x: (Seq<char>, Seq<char>)| !av.contains(x)),
            pair_entries(out@) == av + bv.take(j as int).filter(pred),
        decreases b@.len() - j,
    {
        proof { lemma_filter_step(bv, pred, j as int); }
        assert(bv[j as int] == (b@[j as int].0@, b@[j as int].1@));
        if !contains_pair(a, &b[j]) {
            let ghost before = pair_entries(out@);
            out.push((b[j].0.clone(), b[j].1.clone()));
            assert(pair_entries(out@) =~= before.push(bv[j as int]));
            assert(av + bv.take(j as int).filter(pred).push(bv[j as int]) =~= (av + bv.take(j as int).filter(pred)).push(bv[j as int]));
        }
        j = j + 1;
    }
    assert(bv.take(bv.len() as int) =~= bv);
    out
}

impl SemanticState {
    /// The state where the paths of `a` and `b` meet; see `state_join`.
    pub fn join(a: &SemanticState, b: &SemanticState) -> (r: SemanticState)
        requires
            a.wf(),
            b.wf(),
        ensures
            r.wf(),
            r.model() == state_join(a.model(), b.model()),
    {
        let r = SemanticState {
            vars: join_vars(a, b),
            borrows: merge_borrows(&a.borrows, &b.borrows),
            region_stack: copy_strings(&a.region_stack),
            var_region: union_pairs(&a.var_region, &b.var_region),
            escapes: merge_escapes(&a.escapes, &b.escapes),
        };
        assert(r.model() =~= state_join(a.model(), b.model()));
        r
    }
}


// ─── Comparing states ───────────────────────────────────────────────

/// The value of key `k` in entries `v`, by a scan.
fn lookup_var_entry(v: &Vec<(String, VarState)>, k: &String) -> (r: Option<VarState>)
    requires
        keys_distinct(var_entries(v@)),
    ensures
        match r {
            Some(x) => map_of(var_entries(v@)).contains_key(k@) && map_of(var_entries(v@))[k@] == x,
            None => !map_of(var_entries(v@)).contains_key(k@),
        },
{
    proof { lemma_map_of_entries(var_entries(v@), k@); }
    let mut i: usize = 0;
    while i < v.len()
        invariant
            0 <= i <= v@.len(),
            keys_distinct(var_entries(v@)),
            forall|j: int| 0 <= j < i ==> var_entries(v@)[j].0 != k@,
        decreases v@.len() - i,
    {
        if v[i].0 == *k {
            assert(var_entries(v@)[i as int].0 == k@);
            proof { lemma_map_of_entries(var_entries(v@), k@); }
            return Some(v[i].1);
        }
        i = i + 1;
    }
    None
}

fn lookup_pair_entry(v: &Vec<(String, String)>, k: &String) -> (r: Option<String>)
    requires
        keys_distinct(pair_entries(v@)),
    ensures
        match r {
            Some(x) => map_of(pair_entries(v@)).contains_key(k@) && map_of(pair_entries(v@))[k@] == x@,
            None => !map_of(pair_entries(v@)).contains_key(k@),
        },
{
    proof { lemma_map_of_entries(pair_entries(v@), k@); }
    let mut i: usize = 0;
    while i < v.len()
        invariant
            0 <= i <= v@.len(),
            keys_distinct(pair_entries(v@)),
            forall|j: int| 0 <= j < i ==> pair_entries(v@)[j].0 != k@,
        decreases v@.len() - i,
    {
        if v[i].0 == *k {
            assert(pair_entries(v@)[i as int].0 == k@);
            proof { lemma_map_of_entries(pair_entries(v@), k@); }
            return Some(v[i].1.clone());
        }
        i = i + 1;
    }
    None
}

#[verifier::spinoff_prover]
fn same_var_maps(a: &Vec<(String, VarState)>, b: &Vec<(String, VarState)>) -> (r: bool)
    requires
        keys_distinct(var_entries(a@)),
        keys_distinct(var_entries(b@)),
    ensures
        r == (map_of(var_entries(a@)) == map_of(var_entries(b@))),
{
    let ghost am = map_of(var_entries(a@));
    let ghost bm = map_of(var_entries(b@));
    let mut i: usize = 0;
    while i < a.len()
        invariant
            0 <= i <= a@.len(),
            keys_distinct(var_entries(a@)),
            keys_distinct(var_entries(b@)),
            am == map_of(var_entries(a@)),
            bm == map_of(var_entries(b@)),
            forall|j: int| 0 <= j < i ==> bm.contains_key(#[trigger] var_entries(a@)[j].0)
                && bm[var_entries(a@)[j].0] == am[var_entries(a@)[j].0],
        decreases a@.len() - i,
    {
        proof { lemma_map_of_entries(var_entries(a@), a@[i as int].0@); }
        assert(var_entries(a@)[i as int].0 == a@[i as int].0@);
        match lookup_var_entry(b, &a[i].0) {
            Some(x) => {
                if x != a[i].1 {
                    assert(am[a@[i as int].0@] == a@[i as int].1);
                    return false;
                }
            },
            None => {
                return false;
            },
        }
        i = i + 1;
    }
    let mut j: usize = 0;
    while j < b.len()
        invariant
            0 <= j <= b@.len(),
            keys_distinct(var_entries(a@)),
            keys_distinct(var_entries(b@)),
            am == map_of(var_entries(a@)),
            bm == map_of(var_entries(b@)),
            forall|jj: int| 0 <= jj < a@.len() ==> bm.contains_key(#[trigger] var_entries(a@)[jj].0)
                && bm[var_entries(a@)[jj].0] == am[var_entries(a@)[jj].0],
            forall|jj: int| 0 <= jj < j ==> am.contains_key(#[trigger] var_entries(b@)[jj].0),
        decreases b@.len() - j,
    {
        proof { lemma_map_of_entries(var_entries(b@), b@[j as int].0@); }
        assert(var_entries(b@)[j as int].0 == b@[j as int].0@);
        match lookup_var_entry(a, &b[j].0) {
            Some(_) => {},
            None => {
                return false;
            },
        }
        j = j + 1;
    }
    proof {
        assert forall|k: Seq<char>| #[trigger] am.dom().contains(k) == bm.dom().contains(k) && (am.contains_key(k) ==> am[k] == bm[k]) by {
            lemma_map_of_entries(var_entries(a@), k);
            lemma_map_of_entries(var_entries(b@), k);
            if am.contains_key(k) {
                let p = choose|p: int| 0 <= p < var_entries(a@).len() && #[trigger] var_entries(a@)[p].0 == k;
            }
            if bm.contains_key(k) {
                let p = choose|p: int| 0 <= p < var_entries(b@).len() && #[trigger] var_entries(b@)[p].0 == k;
            }
        }
        assert(am.dom() =~= bm.dom());
        assert(am =~= bm);
    }
    true
}

#[verifier::spinoff_prover]
fn same_pair_maps(a: &Vec<(String, String)>, b: &Vec<(String, String)>) -> (r: bool)
    requires
        keys_distinct(pair_entries(a@)),
        keys_distinct(pair_entries(b@)),
    ensures
        r == (map_of(pair_entries(a@)) == map_of(pair_entries(b@))),
{
    let ghost am = map_of(pair_entries(a@));
    let ghost bm = map_of(pair_entries(b@));
    let mut i: usize = 0;
    while i < a.len()
        invariant
            0 <= i <= a@.len(),
            keys_distinct(pair_entries(a@)),
            keys_distinct(pair_entries(b@)),
            am == map_of(pair_entries(a@)),
            bm == map_of(pair_entries(b@)),
            forall|j: int| 0 <= j < i ==> bm.contains_key(#[trigger] pair_entries(a@)[j].0)
                && bm[pair_entries(a@)[j].0] == am[pair_entries(a@)[j].0],
        decreases a@.len() - i,
    {
        proof { lemma_map_of_entries(pair_entries(a@), a@[i as int].0@); }
        assert(pair_entries(a@)[i as int].0 == a@[i as int].0@);
        match lookup_pair_entry(b, &a[i].0) {
            Some(x) => {
                if x != a[i].1 {
                    assert(am[a@[i as int].0@] == a@[i as int].1@);
                    return false;
                }
            },
            None => {
                return false;
            },
        }
        i = i + 1;
    }
    let mut j: usize = 0;
    while j < b.len()
        invariant
            0 <= j <= b@.len(),
            keys_distinct(pair_entries(a@)),
            keys_distinct(pair_entries(b@)),
            am == map_of(pair_entries(a@)),
            bm == map_of(pair_entries(b@)),
            forall|jj: int| 0 <= jj < a@.len() ==> bm.contains_key(#[trigger] pair_entries(a@)[jj].0)
                && bm[pair_entries(a@)[jj].0] == am[pair_entries(a@)[jj].0],
            forall|jj: int| 0 <= jj < j ==> am.contains_key(#[trigger] pair_entries(b@)[jj].0),
        decreases b@.len() - j,
    {
        proof { lemma_map_of_entries(pair_entries(b@), b@[j as int].0@); }
        assert(pair_entries(b@)[j as int].0 == b@[j as int].0@);
        match lookup_pair_entry(a, &b[j].0) {
            Some(_) => {},
            None => {
                return false;
            },
        }
        j = j + 1;
    }
    proof {
        assert forall|k: Seq<char>| #[trigger] am.dom().contains(k) == bm.dom().contains(k) && (am.contains_key(k) ==> am[k] == bm[k]) by {
            lemma_map_of_entries(pair_entries(a@), k);
            lemma_map_of_entries(pair_entries(b@), k);
            if am.contains_key(k) {
                let p = choose|p: int| 0 <= p < pair_entries(a@).len() && #[trigger] pair_entries(a@)[p].0 == k;
            }
            if bm.contains_key(k) {
                let p = choose|p: int| 0 <= p < pair_entries(b@).len() && #[trigger] pair_entries(b@)[p].0 == k;
            }
        }
        assert(am.dom() =~= bm.dom());
        assert(am =~= bm);
    }
    true
}

fn same_borrow_seqs(a: &Vec<BorrowState>, b: &Vec<BorrowState>) -> (r: bool)
    ensures
        r == (borrow_views(a@) == borrow_views(b@)),
{
    if a.len() != b.len() {
        assert(borrow_views(a@).len() != borrow_views(b@).len());
        return false;
    }
    let mut i: usize = 0;
    while i < a.len()
        invariant
            0 <= i <= a@.len(),
            a@.len() == b@.len(),
            forall|j: int| 0 <= j < i ==> a@[j]@ == b@[j]@,
        decreases a@.len() - i,
    {
        if !a[i].same(&b[i]) {
            assert(borrow_views(a@)[i as int] != borrow_views(b@)[i as int]);
            return false;
        }
        i = i + 1;
    }
    assert(borrow_views(a@) =~= borrow_views(b@));
    true
}

fn same_string_seqs(a: &Vec<String>, b: &Vec<String>) -> (r: bool)
    ensures
        r == (string_views(a@) == string_views(b@)),
{
    if a.len() != b.len() {
        assert(string_views(a@).len() != string_views(b@).len());
        return false;
    }
    let mut i: usize = 0;
    while i < a.len()
        invariant
            0 <= i <= a@.len(),
            a@.len() == b@.len(),
            forall|j: int| 0 <= j < i ==> a@[j]@ == b@[j]@,
        decreases a@.len() - i,
    {
        if a[i] != b[i] {
            assert(string_views(a@)[i as int] != string_views(b@)[i as int]);
            return false;
        }
        i = i + 1;
    }
    assert(string_views(a@) =~= string_views(b@));
    true
}

fn same_pair_seqs(a: &Vec<(String, String)>, b: &Vec<(String, String)>) -> (r: bool)
    ensures
        r == (pair_entries(a@) == pair_entries(b@)),
{
    if a.len() != b.len() {
        assert(pair_entries(a@).len() != pair_entries(b@).len());
        return false;
    }
    let mut i: usize = 0;
    while i < a.len()
        invariant
            0 <= i <= a@.len(),
            a@.len() == b@.len(),
            forall|j: int| 0 <= j < i ==> a@[j].0@ == b@[j].0@ && a@[j].1@ == b@[j].1@,
        decreases a@.len() - i,
    {
        if a[i].0 != b[i].0 || a[i].1 != b[i].1 {
            assert(pair_entries(a@)[i as int] != pair_entries(b@)[i as int]);
            return false;
        }
        i = i + 1;
    }
    assert(pair_entries(a@) =~= pair_entries(b@));
    true
}

impl SemanticState {
    /// Whether two states are the same state.
    pub fn states_equal(a: &SemanticState, b: &SemanticState) -> (r: bool)
        requires
            a.wf(),
            b.wf(),
        ensures
            r == (a.model() == b.model()),
    {
        let r = same_var_maps(&a.vars, &b.vars) && same_borrow_seqs(&a.borrows, &b.borrows)
            && same_string_seqs(&a.region_stack, &b.region_stack) && same_pair_maps(&a.var_region, &b.var_region)
            && same_pair_seqs(&a.escapes, &b.escapes);
        proof {
            if a.model() == b.model() {
                assert(a.model().vars == b.model().vars);
                assert(a.model().borrows == b.model().borrows);
            }
        }
        r
    }
}

} // verus!
