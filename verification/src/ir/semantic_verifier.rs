//! Instruction-level semantic verification of a `SemanticProgram`, run
//! after the structural check of its control-flow graphs.
//!
//! Each function is walked depth first from its entry block. Values are
//! typed against the variables in scope, every instruction and
//! terminator is checked, and the environment flows on to the
//! successors; a block is checked once, in the environment of the first
//! path that reaches it. `Switch` binds a pattern's variable (of unknown
//! type) in the target block only; `IteratorNext` binds the loop variable
//! with the element type its `IteratorInit` recorded.
//!
//! Built-in functions (`Math.*`, `String.*`, `File.*`, `List.*`,
//! `alloc`, `free`) have signatures of their own; a user function of the
//! same name takes precedence.

use vstd::prelude::*;
use crate::common::types::{Type, Ty};
use crate::common::assoc::{map_of, lemma_map_of_dom, lemma_map_of_last};
use crate::ir::cfg_verifier::CfgError;
use self::rules::VErr;

pub mod rules;
pub mod value;
pub mod instruction;
pub mod builtins;
pub mod walk;
pub mod invariants;
pub mod ordering_laws;

verus! {

/// A defect found by the semantic verifier.
#[derive(Debug)]
pub enum VerifyError {
    UndefinedVariable(String),
    VariableTypeMismatch(String),
    ListElementMismatch,
    IncompatibleOperands,
    BinaryOpMismatch,
    IllegalCast,
    IndexNotInt,
    NotIndexable,
    ElementTypeMismatch,
    ClaimMismatch,
    NotPointer,
    UndefinedFunction(String),
    ArgCount(String),
    ArgTypeMismatch(String, usize),
    ReturnTypeMismatch(String),
    ArrayLength,
    RangeBound,
    DeclareMismatch(String),
    AssignUndefined(String),
    AssignImmutable(String),
    AssignMismatch(String),
    ArrayAssignIndex,
    ArrayAssignTarget,
    ArrayAssignValue,
    IteratorNonList,
    ChannelDeclType(String),
    SendUndeclared(String),
    SendNonChannel(String),
    ReceiveUndeclared(String),
    ReceiveNonChannel(String),
    AllocateSize,
    FreeNonPointer,
    ReturnValueMismatch,
    DeclaredReturnMismatch,
    BranchCondition,
    SwitchVoid,
    NoBlocks,
    MissingReturn,
    BlockNotFound(usize),
    NoTerminator(usize),
    Structure(CfgError),
}

impl View for VerifyError {
    type V = VErr;

    open spec fn view(&self) -> VErr {
        match self {
            VerifyError::UndefinedVariable(n) => VErr::UndefinedVariable(n@),
            VerifyError::VariableTypeMismatch(n) => VErr::VariableTypeMismatch(n@),
            VerifyError::ListElementMismatch => VErr::ListElementMismatch,
            VerifyError::IncompatibleOperands => VErr::IncompatibleOperands,
            VerifyError::BinaryOpMismatch => VErr::BinaryOpMismatch,
            VerifyError::IllegalCast => VErr::IllegalCast,
            VerifyError::IndexNotInt => VErr::IndexNotInt,
            VerifyError::NotIndexable => VErr::NotIndexable,
            VerifyError::ElementTypeMismatch => VErr::ElementTypeMismatch,
            VerifyError::ClaimMismatch => VErr::ClaimMismatch,
            VerifyError::NotPointer => VErr::NotPointer,
            VerifyError::UndefinedFunction(n) => VErr::UndefinedFunction(n@),
            VerifyError::ArgCount(n) => VErr::ArgCount(n@),
            VerifyError::ArgTypeMismatch(n, i) => VErr::ArgTypeMismatch(n@, *i as nat),
            VerifyError::ReturnTypeMismatch(n) => VErr::ReturnTypeMismatch(n@),
            VerifyError::ArrayLength => VErr::ArrayLength,
            VerifyError::RangeBound => VErr::RangeBound,
            VerifyError::DeclareMismatch(n) => VErr::DeclareMismatch(n@),
            VerifyError::AssignUndefined(n) => VErr::AssignUndefined(n@),
            VerifyError::AssignImmutable(n) => VErr::AssignImmutable(n@),
            VerifyError::AssignMismatch(n) => VErr::AssignMismatch(n@),
            VerifyError::ArrayAssignIndex => VErr::ArrayAssignIndex,
            VerifyError::ArrayAssignTarget => VErr::ArrayAssignTarget,
            VerifyError::ArrayAssignValue => VErr::ArrayAssignValue,
            VerifyError::IteratorNonList => VErr::IteratorNonList,
            VerifyError::ChannelDeclType(n) => VErr::ChannelDeclType(n@),
            VerifyError::SendUndeclared(n) => VErr::SendUndeclared(n@),
            VerifyError::SendNonChannel(n) => VErr::SendNonChannel(n@),
            VerifyError::ReceiveUndeclared(n) => VErr::ReceiveUndeclared(n@),
            VerifyError::ReceiveNonChannel(n) => VErr::ReceiveNonChannel(n@),
            VerifyError::AllocateSize => VErr::AllocateSize,
            VerifyError::FreeNonPointer => VErr::FreeNonPointer,
            VerifyError::ReturnValueMismatch => VErr::ReturnValueMismatch,
            VerifyError::DeclaredReturnMismatch => VErr::DeclaredReturnMismatch,
            VerifyError::BranchCondition => VErr::BranchCondition,
            VerifyError::SwitchVoid => VErr::SwitchVoid,
            VerifyError::NoBlocks => VErr::NoBlocks,
            VerifyError::MissingReturn => VErr::MissingReturn,
            VerifyError::BlockNotFound(b) => VErr::BlockNotFound(*b),
            VerifyError::NoTerminator(b) => VErr::NoTerminator(*b),
            VerifyError::Structure(_) => VErr::Structure,
        }
    }
}

/// A result's view: the type's model or the defect's.
pub open spec fn ty_result(r: Result<Type, VerifyError>) -> Result<Ty, VErr> {
    match r {
        Ok(t) => Ok(t@),
        Err(e) => Err(e@),
    }
}

/// The parameters and return type of a callable function.
#[derive(Debug)]
pub struct FunctionSignature {
    pub params: Vec<(String, Type)>,
    pub return_type: Type,
}

/// Parameter types and return type.
pub open spec fn sig_model(s: FunctionSignature) -> (Seq<Ty>, Ty) {
    (Seq::new(s.params@.len(), |i: int| s.params@[i].1@), s.return_type@)
}

/// What is known at a program point; in each list a later entry for a
/// name replaces an earlier one.
#[derive(Debug)]
pub struct VerifyEnv {
    pub variables: Vec<(String, Type)>,
    pub mutability: Vec<(String, bool)>,
    pub function_sigs: Vec<(String, FunctionSignature)>,
    pub iterator_elem_types: Vec<(String, Type)>,
}

pub open spec fn type_entries(v: Seq<(String, Type)>) -> Seq<(Seq<char>, Ty)> {
    Seq::new(v.len(), |i: int| (v[i].0@, v[i].1@))
}

pub open spec fn flag_entries(v: Seq<(String, bool)>) -> Seq<(Seq<char>, bool)> {
    Seq::new(v.len(), |i: int| (v[i].0@, v[i].1))
}

pub open spec fn sig_entries(v: Seq<(String, FunctionSignature)>) -> Seq<(Seq<char>, (Seq<Ty>, Ty))> {
    Seq::new(v.len(), |i: int| (v[i].0@, sig_model(v[i].1)))
}

impl VerifyEnv {
    pub open spec fn model(&self) -> rules::EnvModel {
        rules::EnvModel {
            vars: map_of(type_entries(self.variables@)),
            muts: map_of(flag_entries(self.mutability@)),
            sigs: map_of(sig_entries(self.function_sigs@)),
            iters: map_of(type_entries(self.iterator_elem_types@)),
        }
    }
}

/// The index of the last entry for `name`, if any.
pub fn find_type(entries: &Vec<(String, Type)>, name: &String) -> (r: Option<usize>)
    ensures
        match r {
            Some(i) => i < entries@.len() && map_of(type_entries(entries@)).contains_key(name@)
                && map_of(type_entries(entries@))[name@] == entries@[i as int].1@,
            None => !map_of(type_entries(entries@)).contains_key(name@),
        },
{
    let ghost s = type_entries(entries@);
    let mut i: usize = entries.len();
    while i > 0
        invariant
            0 <= i <= entries@.len(),
            s == type_entries(entries@),
            forall|j: int| i <= j < s.len() ==> #[trigger] s[j].0 != name@,
        decreases i,
    {
        if entries[i - 1].0 == *name {
            proof {
                assert(s[i - 1].0 == name@);
                lemma_map_of_last(s, i - 1);
            }
            return Some(i - 1);
        }
        i = i - 1;
    }
    proof {
        lemma_map_of_dom(s, name@);
    }
    None
}

/// The index of the last entry for `name`, if any.
pub fn find_flag(entries: &Vec<(String, bool)>, name: &String) -> (r: Option<usize>)
    ensures
        match r {
            Some(i) => i < entries@.len() && map_of(flag_entries(entries@)).contains_key(name@)
                && map_of(flag_entries(entries@))[name@] == entries@[i as int].1,
            None => !map_of(flag_entries(entries@)).contains_key(name@),
        },
{
    let ghost s = flag_entries(entries@);
    let mut i: usize = entries.len();
    while i > 0
        invariant
            0 <= i <= entries@.len(),
            s == flag_entries(entries@),
            forall|j: int| i <= j < s.len() ==> #[trigger] s[j].0 != name@,
        decreases i,
    {
        if entries[i - 1].0 == *name {
            proof {
                assert(s[i - 1].0 == name@);
                lemma_map_of_last(s, i - 1);
            }
            return Some(i - 1);
        }
        i = i - 1;
    }
    proof {
        lemma_map_of_dom(s, name@);
    }
    None
}

/// The index of the last entry for `name`, if any.
pub fn find_sig(entries: &Vec<(String, FunctionSignature)>, name: &String) -> (r: Option<usize>)
    ensures
        match r {
            Some(i) => i < entries@.len() && map_of(sig_entries(entries@)).contains_key(name@)
                && map_of(sig_entries(entries@))[name@] == sig_model(entries@[i as int].1),
            None => !map_of(sig_entries(entries@)).contains_key(name@),
        },
{
    let ghost s = sig_entries(entries@);
    let mut i: usize = entries.len();
    while i > 0
        invariant
            0 <= i <= entries@.len(),
            s == sig_entries(entries@),
            forall|j: int| i <= j < s.len() ==> #[trigger] s[j].0 != name@,
        decreases i,
    {
        if entries[i - 1].0 == *name {
            proof {
                assert(s[i - 1].0 == name@);
                lemma_map_of_last(s, i - 1);
            }
            return Some(i - 1);
        }
        i = i - 1;
    }
    proof {
        lemma_map_of_dom(s, name@);
    }
    None
}


impl VerifyEnv {
    /// Binds `name` to type `t` with mutability `m`.
    pub fn bind_var(&mut self, name: &String, t: Type, m: bool)
        ensures
            final(self).model() == rules::with_var(old(self).model(), name@, t@, m),
    {
        let ghost tv = t@;
        self.variables.push((name.clone(), t));
        self.mutability.push((name.clone(), m));
        proof {
            let tn = type_entries(old(self).variables@);
            assert(type_entries(self.variables@).drop_last() =~= tn);
            assert(type_entries(self.variables@).last() == (name@, tv));
            let fl = flag_entries(old(self).mutability@);
            assert(flag_entries(self.mutability@).drop_last() =~= fl);
            assert(flag_entries(self.mutability@).last() == (name@, m));
            assert(type_entries(self.iterator_elem_types@) =~= type_entries(old(self).iterator_elem_types@));
            assert(sig_entries(self.function_sigs@) =~= sig_entries(old(self).function_sigs@));
        }
    }

    /// Records element type `t` for iterator `name`.
    pub fn bind_iter(&mut self, name: &String, t: Type)
        ensures
            final(self).model() == rules::with_iter(old(self).model(), name@, t@),
    {
        let ghost tv = t@;
        self.iterator_elem_types.push((name.clone(), t));
        proof {
            let tn = type_entries(old(self).iterator_elem_types@);
            assert(type_entries(self.iterator_elem_types@).drop_last() =~= tn);
            assert(type_entries(self.iterator_elem_types@).last() == (name@, tv));
            assert(type_entries(self.variables@) =~= type_entries(old(self).variables@));
            assert(flag_entries(self.mutability@) =~= flag_entries(old(self).mutability@));
            assert(sig_entries(self.function_sigs@) =~= sig_entries(old(self).function_sigs@));
        }
    }
}

} // verus!
