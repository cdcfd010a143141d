//! The invariant of executable IR: no type variable appears in a
//! function's parameters, its return type, or any type carried by an
//! instruction or terminator. The walk here is independent of the
//! producers of the IR and of `Type::contains_type_var`.
//!
//! Types are written in messages in their mangled spelling (see
//! `mangled_type_name`).

use vstd::prelude::*;
use crate::common::types::{Type, Ty, models, lemma_models};
use crate::common::text::{dec, decimal};
use crate::ir::instantiation_plan::{InstantiationPlan, mangle, mangled_type_name};
use crate::ir::semantic_ir::values::TypedIRValue;
use crate::ir::semantic_ir::instructions::Instruction;
use crate::ir::semantic_ir::terminators::Terminator;
use crate::ir::semantic_ir::patterns::SemanticPattern;
use crate::ir::semantic_ir::program::{SemanticBlock, SemanticFunction, SemanticProgram};

verus! {

broadcast use vstd::seq_lib::group_seq_properties;

/// A violation of the invariant of executable IR.
#[derive(Debug, Clone, PartialEq, Eq)]
pub enum InvariantError {
    TypeVarInExecutableIr { function: String, location: String },
}

impl View for InvariantError {
    type V = (Seq<char>, Seq<char>);

    open spec fn view(&self) -> (Seq<char>, Seq<char>) {
        match self {
            InvariantError::TypeVarInExecutableIr { function, location } => (function@, location@),
        }
    }
}

impl InvariantError {
    /// The error as a sentence.
    pub fn message(&self) -> (r: String)
        ensures
            r@ == "function `"@ + self@.0 + "` contains TypeVar in executable IR ("@ + self@.1 + ")"@,
    {
        match self {
            InvariantError::TypeVarInExecutableIr { function, location } => {
                let mut s = "function `".to_string();
                s.append(function.as_str());
                s.append("` contains TypeVar in executable IR (");
                s.append(location.as_str());
                s.append(")");
                s
            },
        }
    }
}

pub open spec fn error_views(es: Seq<InvariantError>) -> Seq<(Seq<char>, Seq<char>)> {
    Seq::new(es.len(), |i: int| es[i]@)
}

// ─── Where a type variable may hide ─────────────────────────────────

/// `t` mentions a type variable anywhere, function and generic types
/// included.
pub open spec fn mentions_var(t: Ty) -> bool
    decreases t,
{
    match t {
        Ty::TypeVar(_) => true,
        Ty::List(i) => mentions_var(*i),
        Ty::Opt(i) => mentions_var(*i),
        Ty::Pointer(i) => mentions_var(*i),
        Ty::Borrow(i) => mentions_var(*i),
        Ty::MutBorrow(i) => mentions_var(*i),
        Ty::Channel(i) => mentions_var(*i),
        Ty::Array(i, _) => mentions_var(*i),
        Ty::Tuple(es) => any_mentions(es),
        Ty::Res(a, b) => mentions_var(*a) || mentions_var(*b),
        Ty::Function(ps, r) => any_mentions(ps) || mentions_var(*r),
        Ty::Generic(_, args) => any_mentions(args),
        _ => false,
    }
}

pub open spec fn any_mentions(ts: Seq<Ty>) -> bool
    decreases ts,
{
    if ts.len() == 0 {
        false
    } else {
        mentions_var(ts[0]) || any_mentions(ts.drop_first())
    }
}

// ─── The findings, as locations ─────────────────────────────────────

/// `what`, then the type in back quotes.
pub open spec fn typed(what: Seq<char>, t: Ty) -> Seq<char> {
    what + " `"@ + mangle(t) + "`"@
}

/// `text` if `t` mentions a type variable.
pub open spec fn flag(t: Ty, text: Seq<char>) -> Seq<Seq<char>> {
    if mentions_var(t) { seq![text] } else { Seq::empty() }
}

/// Where, inside a value found at `loc`, its types mention a type variable.
pub open spec fn value_locs(v: TypedIRValue, loc: Seq<char>) -> Seq<Seq<char>>
    decreases v,
{
    match v {
        TypedIRValue::Call { args, return_type, .. } =>
            flag(return_type@, loc + ": "@ + typed("Call return type"@, return_type@)) + values_locs(args@, loc),
        TypedIRValue::BinaryOp { left, right, result_type, .. } =>
            flag(result_type@, loc + ": "@ + typed("BinaryOp result type"@, result_type@)) + value_locs(*left, loc)
                + value_locs(*right, loc),
        TypedIRValue::Cast { value, target_type } =>
            flag(target_type@, loc + ": "@ + typed("Cast target type"@, target_type@)) + value_locs(*value, loc),
        TypedIRValue::Variable(_, t) => flag(t@, loc + ": "@ + typed("variable of type"@, t@)),
        TypedIRValue::List(items, t) =>
            flag(t@, loc + ": "@ + typed("List element type"@, t@)) + values_locs(items@, loc),
        TypedIRValue::Borrow { expr, target_type } =>
            flag(target_type@, loc + ": "@ + typed("reference type"@, target_type@)) + value_locs(*expr, loc),
        TypedIRValue::MutBorrow { expr, target_type } =>
            flag(target_type@, loc + ": "@ + typed("reference type"@, target_type@)) + value_locs(*expr, loc),
        TypedIRValue::Deref { expr, target_type } =>
            flag(target_type@, loc + ": "@ + typed("reference type"@, target_type@)) + value_locs(*expr, loc),
        TypedIRValue::AddrOf { expr, target_type } =>
            flag(target_type@, loc + ": "@ + typed("reference type"@, target_type@)) + value_locs(*expr, loc),
        TypedIRValue::SomeValue(inner) => value_locs(*inner, loc),
        TypedIRValue::NoneValue { option_type } => flag(option_type@, loc + ": "@ + typed("None of type"@, option_type@)),
        TypedIRValue::OkValue { value, result_type } =>
            flag(result_type@, loc + ": "@ + typed("Result type"@, result_type@)) + value_locs(*value, loc),
        TypedIRValue::Error { value, result_type } =>
            flag(result_type@, loc + ": "@ + typed("Result type"@, result_type@)) + value_locs(*value, loc),
        TypedIRValue::ArrayAccess { array, index, element_type } =>
            flag(element_type@, loc + ": "@ + typed("array element type"@, element_type@)) + value_locs(*array, loc)
                + value_locs(*index, loc),
        _ => Seq::empty(),
    }
}

pub open spec fn values_locs(vs: Seq<TypedIRValue>, loc: Seq<char>) -> Seq<Seq<char>>
    decreases vs,
{
    if vs.len() == 0 {
        Seq::empty()
    } else {
        values_locs(vs.drop_last(), loc) + value_locs(vs.last(), loc)
    }
}

/// `block {b} instr {idx}: {suffix}`.
pub open spec fn instr_loc(b: nat, idx: nat, suffix: Seq<char>) -> Seq<char> {
    "block "@ + dec(b) + " instr "@ + dec(idx) + ": "@ + suffix
}

/// `block {b} terminator: {suffix}`.
pub open spec fn term_loc(b: nat, suffix: Seq<char>) -> Seq<char> {
    "block "@ + dec(b) + " terminator: "@ + suffix
}

/// The findings of instruction `idx` of block `b`.
pub open spec fn instr_locs(i: Instruction, b: nat, idx: nat) -> Seq<Seq<char>> {
    match i {
        Instruction::Call { args, .. } => values_locs(args@, instr_loc(b, idx, "Call arg"@)),
        Instruction::Declare { type_, value, .. } =>
            flag(type_@, instr_loc(b, idx, typed("Declare type"@, type_@))) + value_locs(value, instr_loc(b, idx, "Declare value"@)),
        Instruction::Assign { value, .. } => value_locs(value, instr_loc(b, idx, "Assign"@)),
        Instruction::Print { value } => value_locs(value, instr_loc(b, idx, "Print"@)),
        Instruction::ArrayAssign { array, index, value } =>
            value_locs(*array, instr_loc(b, idx, "ArrayAssign array"@)) + value_locs(*index, instr_loc(b, idx, "ArrayAssign index"@))
                + value_locs(value, instr_loc(b, idx, "ArrayAssign value"@)),
        Instruction::Send { value, .. } => value_locs(value, instr_loc(b, idx, "SendChannel"@)),
        Instruction::ChannelSend { value, .. } => value_locs(value, instr_loc(b, idx, "SendChannel"@)),
        Instruction::Allocate { size, type_, .. } =>
            flag(type_@, instr_loc(b, idx, typed("Allocate type"@, type_@))) + value_locs(size, instr_loc(b, idx, "Allocate size"@)),
        Instruction::Free { ptr } => value_locs(ptr, instr_loc(b, idx, "Free"@)),
        _ => Seq::empty(),
    }
}

pub open spec fn instrs_locs(is: Seq<Instruction>, b: nat) -> Seq<Seq<char>>
    decreases is.len(),
{
    if is.len() == 0 {
        Seq::empty()
    } else {
        instrs_locs(is.drop_last(), b) + instr_locs(is.last(), b, (is.len() - 1) as nat)
    }
}

/// The findings of the literal patterns of a switch.
pub open spec fn cases_locs(cs: Seq<(SemanticPattern, usize)>, loc: Seq<char>) -> Seq<Seq<char>>
    decreases cs.len(),
{
    if cs.len() == 0 {
        Seq::empty()
    } else {
        cases_locs(cs.drop_last(), loc) + match cs.last().0 {
            SemanticPattern::Literal(v) => value_locs(v, loc),
            _ => Seq::empty(),
        }
    }
}

/// The findings of the terminator of block `b`.
pub open spec fn term_locs(t: Terminator, b: nat) -> Seq<Seq<char>> {
    match t {
        Terminator::Return { value: Some(v), type_ } =>
            flag(type_@, term_loc(b, typed("Return type"@, type_@))) + value_locs(v, term_loc(b, "Return value"@)),
        Terminator::Branch { condition, .. } => value_locs(condition, term_loc(b, "Branch condition"@)),
        Terminator::Switch { value, cases, .. } =>
            value_locs(value, term_loc(b, "Switch value"@)) + cases_locs(cases@, term_loc(b, "Switch case literal"@)),
        _ => Seq::empty(),
    }
}

pub open spec fn block_locs(sb: SemanticBlock) -> Seq<Seq<char>> {
    instrs_locs(sb.instructions@, sb.id as nat) + match sb.terminator {
        Some(t) => term_locs(t, sb.id as nat),
        None => Seq::empty(),
    }
}

pub open spec fn blocks_locs(bs: Seq<SemanticBlock>) -> Seq<Seq<char>>
    decreases bs.len(),
{
    if bs.len() == 0 { Seq::empty() } else { blocks_locs(bs.drop_last()) + block_locs(bs.last()) }
}

pub open spec fn params_locs(ps: Seq<(String, Type)>) -> Seq<Seq<char>>
    decreases ps.len(),
{
    if ps.len() == 0 {
        Seq::empty()
    } else {
        params_locs(ps.drop_last()) + flag(ps.last().1@, "parameter `"@ + ps.last().0@ + "` has type `"@ + mangle(ps.last().1@) + "`"@)
    }
}

/// The findings of a function, in the order they are reported.
pub open spec fn function_locs(f: SemanticFunction) -> Seq<Seq<char>> {
    params_locs(f.params@) + flag(f.return_type@, typed("return type"@, f.return_type@)) + blocks_locs(f.blocks@)
}

/// Every finding of the functions, with its function's name.
pub open spec fn program_findings(fs: Seq<SemanticFunction>) -> Seq<(Seq<char>, Seq<char>)>
    decreases fs.len(),
{
    if fs.len() == 0 {
        Seq::empty()
    } else {
        let f = fs.last();
        program_findings(fs.drop_last()) + Seq::new(function_locs(f).len(), |k: int| (f.name@, function_locs(f)[k]))
    }
}

// ─── Clean IR, stated directly ──────────────────────────────────────

/// No type carried by `v` (or by anything inside it) mentions a type
/// variable.
pub open spec fn value_clean(v: TypedIRValue) -> bool
    decreases v,
{
    match v {
        TypedIRValue::Call { args, return_type, .. } => !mentions_var(return_type@) && values_clean(args@),
        TypedIRValue::BinaryOp { left, right, result_type, .. } =>
            !mentions_var(result_type@) && value_clean(*left) && value_clean(*right),
        TypedIRValue::Cast { value, target_type } => !mentions_var(target_type@) && value_clean(*value),
        TypedIRValue::Variable(_, t) => !mentions_var(t@),
        TypedIRValue::List(items, t) => !mentions_var(t@) && values_clean(items@),
        TypedIRValue::Borrow { expr, target_type } => !mentions_var(target_type@) && value_clean(*expr),
        TypedIRValue::MutBorrow { expr, target_type } => !mentions_var(target_type@) && value_clean(*expr),
        TypedIRValue::Deref { expr, target_type } => !mentions_var(target_type@) && value_clean(*expr),
        TypedIRValue::AddrOf { expr, target_type } => !mentions_var(target_type@) && value_clean(*expr),
        TypedIRValue::SomeValue(inner) => value_clean(*inner),
        TypedIRValue::NoneValue { option_type } => !mentions_var(option_type@),
        TypedIRValue::OkValue { value, result_type } => !mentions_var(result_type@) && value_clean(*value),
        TypedIRValue::Error { value, result_type } => !mentions_var(result_type@) && value_clean(*value),
        TypedIRValue::ArrayAccess { array, index, element_type } =>
            !mentions_var(element_type@) && value_clean(*array) && value_clean(*index),
        _ => true,
    }
}

pub open spec fn values_clean(vs: Seq<TypedIRValue>) -> bool
    decreases vs,
{
    vs.len() == 0 || (values_clean(vs.drop_last()) && value_clean(vs.last()))
}

pub open spec fn instr_clean(i: Instruction) -> bool {
    match i {
        Instruction::Call { args, .. } => values_clean(args@),
        Instruction::Declare { type_, value, .. } => !mentions_var(type_@) && value_clean(value),
        Instruction::Assign { value, .. } => value_clean(value),
        Instruction::Print { value } => value_clean(value),
        Instruction::ArrayAssign { array, index, value } => value_clean(*array) && value_clean(*index) && value_clean(value),
        Instruction::Send { value, .. } => value_clean(value),
        Instruction::ChannelSend { value, .. } => value_clean(value),
        Instruction::Allocate { size, type_, .. } => !mentions_var(type_@) && value_clean(size),
        Instruction::Free { ptr } => value_clean(ptr),
        _ => true,
    }
}

/// Every literal pattern of the cases is clean.
pub open spec fn cases_clean(cs: Seq<(SemanticPattern, usize)>) -> bool {
    forall|k: int| 0 <= k < cs.len() ==> pattern_clean(#[trigger] cs[k].0)
}

pub open spec fn pattern_clean(p: SemanticPattern) -> bool {
    match p {
        SemanticPattern::Literal(v) => value_clean(v),
        _ => true,
    }
}

pub open spec fn term_clean(t: Terminator) -> bool {
    match t {
        Terminator::Return { value: Some(v), type_ } => !mentions_var(type_@) && value_clean(v),
        Terminator::Branch { condition, .. } => value_clean(condition),
        Terminator::Switch { value, cases, .. } => value_clean(value) && cases_clean(cases@),
        _ => true,
    }
}

/// A block whose instructions and terminator are clean.
pub open spec fn block_clean(sb: SemanticBlock) -> bool {
    &&& forall|k: int| 0 <= k < sb.instructions@.len() ==> instr_clean(#[trigger] sb.instructions@[k])
    &&& match sb.terminator { Some(t) => term_clean(t), None => true }
}

/// A function whose parameters, return type and blocks are clean.
pub open spec fn function_clean(f: SemanticFunction) -> bool {
    &&& forall|k: int| 0 <= k < f.params@.len() ==> !mentions_var((#[trigger] f.params@[k]).1@)
    &&& !mentions_var(f.return_type@)
    &&& forall|j: int| 0 <= j < f.blocks@.len() ==> block_clean(#[trigger] f.blocks@[j])
}

/// Executable IR: no type variable in any parameter, return type, or type
/// carried by an instruction or terminator of any function.
pub open spec fn program_clean(fs: Seq<SemanticFunction>) -> bool {
    forall|i: int| 0 <= i < fs.len() ==> #[trigger] function_clean(fs[i])
}

// ─── Lemmas ─────────────────────────────────────────────────────────

proof fn lemma_any_mentions(ts: Seq<Ty>)
    ensures
        any_mentions(ts) <==> exists|i: int| 0 <= i < ts.len() && #[trigger] mentions_var(ts[i]),
    decreases ts.len(),
{
    if ts.len() > 0 {
        let rest = ts.drop_first();
        lemma_any_mentions(rest);
        if mentions_var(ts[0]) {
            assert(0 <= 0 < ts.len() && mentions_var(ts[0]));
        } else if any_mentions(rest) {
            let i = choose|i: int| 0 <= i < rest.len() && #[trigger] mentions_var(rest[i]);
            assert(rest[i] == ts[i + 1]);
            assert(0 <= i + 1 < ts.len() && mentions_var(ts[i + 1]));
        }
        if exists|i: int| 0 <= i < ts.len() && #[trigger] mentions_var(ts[i]) {
            let i = choose|i: int| 0 <= i < ts.len() && #[trigger] mentions_var(ts[i]);
            if i > 0 {
                assert(rest[i - 1] == ts[i]);
                assert(mentions_var(rest[i - 1]));
            }
        }
    }
}

/// The locations `locs`, each with function name `n`.
pub open spec fn tagged(n: Seq<char>, locs: Seq<Seq<char>>) -> Seq<(Seq<char>, Seq<char>)> {
    Seq::new(locs.len(), |k: int| (n, locs[k]))
}

proof fn lemma_tagged_add(n: Seq<char>, a: Seq<Seq<char>>, b: Seq<Seq<char>>)
    ensures
        tagged(n, a + b) == tagged(n, a) + tagged(n, b),
{
    assert(tagged(n, a + b) =~= tagged(n, a) + tagged(n, b));
}

proof fn lemma_value_locs(v: TypedIRValue, loc: Seq<char>)
    ensures
        value_locs(v, loc).len() == 0 <==> value_clean(v),
    decreases v,
{
    match v {
        TypedIRValue::Call { args, .. } => lemma_values_locs(args@, loc),
        TypedIRValue::BinaryOp { left, right, .. } => {
            lemma_value_locs(*left, loc);
            lemma_value_locs(*right, loc);
        },
        TypedIRValue::Cast { value, .. } => lemma_value_locs(*value, loc),
        TypedIRValue::List(items, _) => lemma_values_locs(items@, loc),
        TypedIRValue::Borrow { expr, .. } => lemma_value_locs(*expr, loc),
        TypedIRValue::MutBorrow { expr, .. } => lemma_value_locs(*expr, loc),
        TypedIRValue::Deref { expr, .. } => lemma_value_locs(*expr, loc),
        TypedIRValue::AddrOf { expr, .. } => lemma_value_locs(*expr, loc),
        TypedIRValue::SomeValue(inner) => lemma_value_locs(*inner, loc),
        TypedIRValue::OkValue { value, .. } => lemma_value_locs(*value, loc),
        TypedIRValue::Error { value, .. } => lemma_value_locs(*value, loc),
        TypedIRValue::ArrayAccess { array, index, .. } => {
            lemma_value_locs(*array, loc);
            lemma_value_locs(*index, loc);
        },
        _ => {},
    }
}

proof fn lemma_values_locs(vs: Seq<TypedIRValue>, loc: Seq<char>)
    ensures
        values_locs(vs, loc).len() == 0 <==> values_clean(vs),
    decreases vs,
{
    if vs.len() > 0 {
        lemma_values_locs(vs.drop_last(), loc);
        lemma_value_locs(vs.last(), loc);
    }
}

proof fn lemma_instr_locs(i: Instruction, b: nat, idx: nat)
    ensures
        instr_locs(i, b, idx).len() == 0 <==> instr_clean(i),
{
    match i {
        Instruction::Call { args, .. } => lemma_values_locs(args@, instr_loc(b, idx, "Call arg"@)),
        Instruction::Declare { value, .. } => lemma_value_locs(value, instr_loc(b, idx, "Declare value"@)),
        Instruction::Assign { value, .. } => lemma_value_locs(value, instr_loc(b, idx, "Assign"@)),
        Instruction::Print { value } => lemma_value_locs(value, instr_loc(b, idx, "Print"@)),
        Instruction::ArrayAssign { array, index, value } => {
            lemma_value_locs(*array, instr_loc(b, idx, "ArrayAssign array"@));
            lemma_value_locs(*index, instr_loc(b, idx, "ArrayAssign index"@));
            lemma_value_locs(value, instr_loc(b, idx, "ArrayAssign value"@));
        },
        Instruction::Send { value, .. } => lemma_value_locs(value, instr_loc(b, idx, "SendChannel"@)),
        Instruction::ChannelSend { value, .. } => lemma_value_locs(value, instr_loc(b, idx, "SendChannel"@)),
        Instruction::Allocate { size, .. } => lemma_value_locs(size, instr_loc(b, idx, "Allocate size"@)),
        Instruction::Free { ptr } => lemma_value_locs(ptr, instr_loc(b, idx, "Free"@)),
        _ => {},
    }
}

proof fn lemma_instrs_locs(is: Seq<Instruction>, b: nat)
    ensures
        instrs_locs(is, b).len() == 0 <==> forall|k: int| 0 <= k < is.len() ==> instr_clean(#[trigger] is[k]),
    decreases is.len(),
{
    if is.len() > 0 {
        let init = is.drop_last();
        lemma_instrs_locs(init, b);
        lemma_instr_locs(is.last(), b, (is.len() - 1) as nat);
        if instrs_locs(is, b).len() == 0 {
            assert forall|k: int| 0 <= k < is.len() implies instr_clean(#[trigger] is[k]) by {
                if k < is.len() - 1 {
                    assert(init[k] == is[k]);
                }
            }
        }
        if forall|k: int| 0 <= k < is.len() ==> instr_clean(#[trigger] is[k]) {
            assert forall|k: int| 0 <= k < init.len() implies instr_clean(#[trigger] init[k]) by {
                assert(init[k] == is[k]);
            }
            assert(instr_clean(is[is.len() - 1]));
        }
    }
}

proof fn lemma_cases_locs(cs: Seq<(SemanticPattern, usize)>, loc: Seq<char>)
    ensures
        cases_locs(cs, loc).len() == 0 <==> cases_clean(cs),
    decreases cs.len(),
{
    if cs.len() > 0 {
        let init = cs.drop_last();
        lemma_cases_locs(init, loc);
        match cs.last().0 {
            SemanticPattern::Literal(v) => lemma_value_locs(v, loc),
            _ => {},
        }
        if cases_locs(cs, loc).len() == 0 {
            assert forall|k: int| 0 <= k < cs.len() implies pattern_clean(#[trigger] cs[k].0) by {
                if k < cs.len() - 1 {
                    assert(init[k] == cs[k]);
                }
            }
        }
        if cases_clean(cs) {
            assert forall|k: int| 0 <= k < init.len() implies pattern_clean(#[trigger] init[k].0) by {
                assert(init[k] == cs[k]);
            }
            assert(pattern_clean(cs[cs.len() - 1].0));
        }
    }
}

proof fn lemma_term_locs(t: Terminator, b: nat)
    ensures
        term_locs(t, b).len() == 0 <==> term_clean(t),
{
    match t {
        Terminator::Return { value: Some(v), .. } => lemma_value_locs(v, term_loc(b, "Return value"@)),
        Terminator::Branch { condition, .. } => lemma_value_locs(condition, term_loc(b, "Branch condition"@)),
        Terminator::Switch { value, cases, .. } => {
            lemma_value_locs(value, term_loc(b, "Switch value"@));
            lemma_cases_locs(cases@, term_loc(b, "Switch case literal"@));
        },
        _ => {},
    }
}

proof fn lemma_blocks_locs(bs: Seq<SemanticBlock>)
    ensures
        blocks_locs(bs).len() == 0 <==> forall|j: int| 0 <= j < bs.len() ==> block_clean(#[trigger] bs[j]),
    decreases bs.len(),
{
    if bs.len() > 0 {
        let init = bs.drop_last();
        let sb = bs.last();
        lemma_blocks_locs(init);
        lemma_instrs_locs(sb.instructions@, sb.id as nat);
        match sb.terminator {
            Some(t) => lemma_term_locs(t, sb.id as nat),
            None => {},
        }
        if blocks_locs(bs).len() == 0 {
            assert forall|j: int| 0 <= j < bs.len() implies block_clean(#[trigger] bs[j]) by {
                if j < bs.len() - 1 {
                    assert(init[j] == bs[j]);
                }
            }
        }
        if forall|j: int| 0 <= j < bs.len() ==> block_clean(#[trigger] bs[j]) {
            assert forall|j: int| 0 <= j < init.len() implies block_clean(#[trigger] init[j]) by {
                assert(init[j] == bs[j]);
            }
            assert(block_clean(bs[bs.len() - 1]));
        }
    }
}

proof fn lemma_params_locs(ps: Seq<(String, Type)>)
    ensures
        params_locs(ps).len() == 0 <==> forall|k: int| 0 <= k < ps.len() ==> !mentions_var((#[trigger] ps[k]).1@),
    decreases ps.len(),
{
    if ps.len() > 0 {
        let init = ps.drop_last();
        lemma_params_locs(init);
        if params_locs(ps).len() == 0 {
            assert forall|k: int| 0 <= k < ps.len() implies !mentions_var((#[trigger] ps[k]).1@) by {
                if k < ps.len() - 1 {
                    assert(init[k] == ps[k]);
                }
            }
        }
        if forall|k: int| 0 <= k < ps.len() ==> !mentions_var((#[trigger] ps[k]).1@) {
            assert forall|k: int| 0 <= k < init.len() implies !mentions_var((#[trigger] init[k]).1@) by {
                assert(init[k] == ps[k]);
            }
            assert(!mentions_var(ps[ps.len() - 1].1@));
        }
    }
}

proof fn lemma_function_locs(f: SemanticFunction)
    ensures
        function_locs(f).len() == 0 <==> function_clean(f),
{
    lemma_params_locs(f.params@);
    lemma_blocks_locs(f.blocks@);
}

/// The check finds nothing exactly when the IR is executable: no type
/// variable anywhere it looks.
pub proof fn lemma_findings_empty_iff_clean(fs: Seq<SemanticFunction>)
    ensures
        program_findings(fs).len() == 0 <==> program_clean(fs),
    decreases fs.len(),
{
    if fs.len() > 0 {
        let init = fs.drop_last();
        lemma_findings_empty_iff_clean(init);
        lemma_function_locs(fs.last());
        if program_findings(fs).len() == 0 {
            assert forall|i: int| 0 <= i < fs.len() implies #[trigger] function_clean(fs[i]) by {
                if i < fs.len() - 1 {
                    assert(init[i] == fs[i]);
                    assert(function_clean(init[i]));
                }
            }
        }
        if program_clean(fs) {
            assert forall|i: int| 0 <= i < init.len() implies #[trigger] function_clean(init[i]) by {
                assert(init[i] == fs[i]);
                assert(function_clean(fs[i]));
            }
            assert(function_clean(fs[fs.len() - 1]));
        }
    }
}

// ─── The check ──────────────────────────────────────────────────────

/// Whether `t` mentions a type variable anywhere.
fn mentions_type_var(t: &Type) -> (r: bool)
    ensures
        r == mentions_var(t@),
    decreases t,
{
    match t {
        Type::TypeVar(_) => true,
        Type::List(i) => mentions_type_var(i),
        Type::Option(i) => mentions_type_var(i),
        Type::Pointer(i) => mentions_type_var(i),
        Type::Borrow(i) => mentions_type_var(i),
        Type::MutBorrow(i) => mentions_type_var(i),
        Type::Channel(i) => mentions_type_var(i),
        Type::Array(i, _) => mentions_type_var(i),
        Type::Tuple(es) => any_mentions_in(es),
        Type::Result { ok, error } => mentions_type_var(ok) || mentions_type_var(error),
        Type::Function { params, return_type } => any_mentions_in(params) || mentions_type_var(return_type),
        Type::Generic { args, .. } => any_mentions_in(args),
        _ => false,
    }
}

fn any_mentions_in(ts: &Vec<Type>) -> (r: bool)
    ensures
        r == any_mentions(models(ts@)),
    decreases ts,
{
    proof {
        lemma_models(ts@);
        lemma_any_mentions(models(ts@));
    }
    let mut i: usize = 0;
    while i < ts.len()
        invariant
            0 <= i <= ts@.len(),
            models(ts@).len() == ts@.len(),
            forall|j: int| 0 <= j < ts@.len() ==> #[trigger] models(ts@)[j] == ts@[j]@,
            forall|j: int| 0 <= j < i ==> !mentions_var(#[trigger] models(ts@)[j]),
        decreases ts@.len() - i,
    {
        assert(decreases_to!(ts => ts@[i as int]));
        if mentions_type_var(&ts[i]) {
            assert(mentions_var(models(ts@)[i as int]));
            proof {
                lemma_any_mentions(models(ts@));
            }
            return true;
        }
        i = i + 1;
    }
    false
}

/// `what`, then the mangled type in back quotes.
fn typed_text(what: &str, t: &Type) -> (r: String)
    ensures
        r@ == typed(what@, t@),
{
    let mut s = what.to_string();
    s.append(" `");
    s.append(mangled_type_name(t).as_str());
    s.append("`");
    s
}

/// `loc: what `type``.
fn at(loc: &String, what: &str, t: &Type) -> (r: String)
    ensures
        r@ == loc@ + ": "@ + typed(what@, t@),
{
    let mut s = loc.clone();
    s.append(": ");
    s.append(typed_text(what, t).as_str());
    s
}

/// `block {b} instr {idx}: {suffix}`.
fn instr_at(b: usize, idx: usize, suffix: &String) -> (r: String)
    ensures
        r@ == instr_loc(b as nat, idx as nat, suffix@),
{
    let mut s = "block ".to_string();
    s.append(decimal(b).as_str());
    s.append(" instr ");
    s.append(decimal(idx).as_str());
    s.append(": ");
    s.append(suffix.as_str());
    s
}

/// `block {b} terminator: {suffix}`.
fn term_at(b: usize, suffix: &String) -> (r: String)
    ensures
        r@ == term_loc(b as nat, suffix@),
{
    let mut s = "block ".to_string();
    s.append(decimal(b).as_str());
    s.append(" terminator: ");
    s.append(suffix.as_str());
    s
}

/// Records a finding of `function` at `location`.
fn report(errors: &mut Vec<InvariantError>, function: &String, location: String)
    ensures
        error_views(final(errors)@) == error_views(old(errors)@).push((function@, location@)),
{
    let ghost e0 = errors@;
    errors.push(InvariantError::TypeVarInExecutableIr { function: function.clone(), location });
    assert(error_views(errors@) =~= error_views(e0).push((function@, location@)));
}

/// Records a finding at `loc: what `t`` if `t` mentions a type variable.
fn check_type_at(errors: &mut Vec<InvariantError>, function: &String, t: &Type, loc: &String, what: &str)
    ensures
        error_views(final(errors)@) == error_views(old(errors)@) + tagged(function@, flag(t@, loc@ + ": "@ + typed(what@, t@))),
{
    let ghost e0 = errors@;
    if mentions_type_var(t) {
        report(errors, function, at(loc, what, t));
    }
    assert(error_views(errors@) =~= error_views(e0) + tagged(function@, flag(t@, loc@ + ": "@ + typed(what@, t@))));
}

/// Records a finding with text `text` if `t` mentions a type variable.
fn check_type(errors: &mut Vec<InvariantError>, function: &String, t: &Type, text: String)
    ensures
        error_views(final(errors)@) == error_views(old(errors)@) + tagged(function@, flag(t@, text@)),
{
    let ghost e0 = errors@;
    let ghost text_v = text@;
    if mentions_type_var(t) {
        report(errors, function, text);
    }
    assert(error_views(errors@) =~= error_views(e0) + tagged(function@, flag(t@, text_v)));
}

/// Records the findings inside value `value`, found at `loc`.
#[verifier::rlimit(40)]
fn check_value(value: &TypedIRValue, function: &String, loc: &String, errors: &mut Vec<InvariantError>)
    ensures
        error_views(final(errors)@) == error_views(old(errors)@) + tagged(function@, value_locs(*value, loc@)),
    decreases value,
{
    let ghost e0 = errors@;
    let ghost f = function@;
    let ghost l = loc@;
    match value {
        TypedIRValue::Call { args, return_type, .. } => {
            check_type_at(errors, function, return_type, loc, "Call return type");
            check_values(args, function, loc, errors);
            proof { lemma_tagged_add(f, flag(return_type@, l + ": "@ + typed("Call return type"@, return_type@)), values_locs(args@, l)); }
        },
        TypedIRValue::BinaryOp { left, right, result_type, .. } => {
            check_type_at(errors, function, result_type, loc, "BinaryOp result type");
            let ghost e1 = errors@;
            check_value(left, function, loc, errors);
            check_value(right, function, loc, errors);
            proof {
                let a = flag(result_type@, l + ": "@ + typed("BinaryOp result type"@, result_type@));
                lemma_tagged_add(f, a, value_locs(**left, l));
                lemma_tagged_add(f, a + value_locs(**left, l), value_locs(**right, l));
            }
        },
        TypedIRValue::Cast { value: inner, target_type } => {
            check_type_at(errors, function, target_type, loc, "Cast target type");
            check_value(inner, function, loc, errors);
            proof { lemma_tagged_add(f, flag(target_type@, l + ": "@ + typed("Cast target type"@, target_type@)), value_locs(**inner, l)); }
        },
        TypedIRValue::Variable(_, t) => {
            check_type_at(errors, function, t, loc, "variable of type");
        },
        TypedIRValue::List(items, t) => {
            check_type_at(errors, function, t, loc, "List element type");
            check_values(items, function, loc, errors);
            proof { lemma_tagged_add(f, flag(t@, l + ": "@ + typed("List element type"@, t@)), values_locs(items@, l)); }
        },
        TypedIRValue::Borrow { expr, target_type } => {
            check_type_at(errors, function, target_type, loc, "reference type");
            check_value(expr, function, loc, errors);
            proof { lemma_tagged_add(f, flag(target_type@, l + ": "@ + typed("reference type"@, target_type@)), value_locs(**expr, l)); }
        },
        TypedIRValue::MutBorrow { expr, target_type } => {
            check_type_at(errors, function, target_type, loc, "reference type");
            check_value(expr, function, loc, errors);
            proof { lemma_tagged_add(f, flag(target_type@, l + ": "@ + typed("reference type"@, target_type@)), value_locs(**expr, l)); }
        },
        TypedIRValue::Deref { expr, target_type } => {
            check_type_at(errors, function, target_type, loc, "reference type");
            check_value(expr, function, loc, errors);
            proof { lemma_tagged_add(f, flag(target_type@, l + ": "@ + typed("reference type"@, target_type@)), value_locs(**expr, l)); }
        },
        TypedIRValue::AddrOf { expr, target_type } => {
            check_type_at(errors, function, target_type, loc, "reference type");
            check_value(expr, function, loc, errors);
            proof { lemma_tagged_add(f, flag(target_type@, l + ": "@ + typed("reference type"@, target_type@)), value_locs(**expr, l)); }
        },
        TypedIRValue::SomeValue(inner) => {
            check_value(inner, function, loc, errors);
        },
        TypedIRValue::NoneValue { option_type } => {
            check_type_at(errors, function, option_type, loc, "None of type");
        },
        TypedIRValue::OkValue { value: inner, result_type } => {
            check_type_at(errors, function, result_type, loc, "Result type");
            check_value(inner, function, loc, errors);
            proof { lemma_tagged_add(f, flag(result_type@, l + ": "@ + typed("Result type"@, result_type@)), value_locs(**inner, l)); }
        },
        TypedIRValue::Error { value: inner, result_type } => {
            check_type_at(errors, function, result_type, loc, "Result type");
            check_value(inner, function, loc, errors);
            proof { lemma_tagged_add(f, flag(result_type@, l + ": "@ + typed("Result type"@, result_type@)), value_locs(**inner, l)); }
        },
        TypedIRValue::ArrayAccess { array, index, element_type } => {
            check_type_at(errors, function, element_type, loc, "array element type");
            check_value(array, function, loc, errors);
            check_value(index, function, loc, errors);
            proof {
                let a = flag(element_type@, l + ": "@ + typed("array element type"@, element_type@));
                lemma_tagged_add(f, a, value_locs(**array, l));
                lemma_tagged_add(f, a + value_locs(**array, l), value_locs(**index, l));
            }
        },
        _ => {
            assert(error_views(errors@) =~= error_views(e0) + tagged(f, value_locs(*value, l)));
        },
    }
}

/// Records the findings inside each of `vs`, in order.
fn check_values(vs: &Vec<TypedIRValue>, function: &String, loc: &String, errors: &mut Vec<InvariantError>)
    ensures
        error_views(final(errors)@) == error_views(old(errors)@) + tagged(function@, values_locs(vs@, loc@)),
    decreases vs,
{
    let ghost e0 = errors@;
    let mut i: usize = 0;
    assert(error_views(errors@) =~= error_views(e0) + tagged(function@, values_locs(vs@.take(0), loc@)));
    while i < vs.len()
        invariant
            0 <= i <= vs@.len(),
            error_views(errors@) == error_views(e0) + tagged(function@, values_locs(vs@.take(i as int), loc@)),
        decreases vs@.len() - i,
    {
        assert(decreases_to!(vs => vs@[i as int]));
        proof {
            assert(vs@.take(i + 1).drop_last() =~= vs@.take(i as int));
            assert(vs@.take(i + 1).last() == vs@[i as int]);
            lemma_tagged_add(function@, values_locs(vs@.take(i as int), loc@), value_locs(vs@[i as int], loc@));
        }
        check_value(&vs[i], function, loc, errors);
        i = i + 1;
    }
    assert(vs@.take(vs@.len() as int) =~= vs@);
}

/// Records the findings of instruction `idx` of block `b`.
#[verifier::rlimit(40)]
fn check_instruction(instr: &Instruction, function: &String, b: usize, idx: usize, errors: &mut Vec<InvariantError>)
    ensures
        error_views(final(errors)@) == error_views(old(errors)@) + tagged(function@, instr_locs(*instr, b as nat, idx as nat)),
{
    let ghost e0 = errors@;
    let ghost f = function@;
    match instr {
        Instruction::Call { args, .. } => {
            check_values(args, function, &instr_at(b, idx, &"Call arg".to_string()), errors);
        },
        Instruction::Declare { type_, value, .. } => {
            check_type(errors, function, type_, instr_at(b, idx, &typed_text("Declare type", type_)));
            check_value(value, function, &instr_at(b, idx, &"Declare value".to_string()), errors);
            proof {
                lemma_tagged_add(f, flag(type_@, instr_loc(b as nat, idx as nat, typed("Declare type"@, type_@))),
                    value_locs(*value, instr_loc(b as nat, idx as nat, "Declare value"@)));
            }
        },
        Instruction::Assign { value, .. } => {
            check_value(value, function, &instr_at(b, idx, &"Assign".to_string()), errors);
        },
        Instruction::Print { value } => {
            check_value(value, function, &instr_at(b, idx, &"Print".to_string()), errors);
        },
        Instruction::ArrayAssign { array, index, value } => {
            check_value(array, function, &instr_at(b, idx, &"ArrayAssign array".to_string()), errors);
            check_value(index, function, &instr_at(b, idx, &"ArrayAssign index".to_string()), errors);
            check_value(value, function, &instr_at(b, idx, &"ArrayAssign value".to_string()), errors);
            proof {
                let x = value_locs(**array, instr_loc(b as nat, idx as nat, "ArrayAssign array"@));
                let y = value_locs(**index, instr_loc(b as nat, idx as nat, "ArrayAssign index"@));
                let z = value_locs(*value, instr_loc(b as nat, idx as nat, "ArrayAssign value"@));
                lemma_tagged_add(f, x, y);
                lemma_tagged_add(f, x + y, z);
            }
        },
        Instruction::Send { value, .. } | Instruction::ChannelSend { value, .. } => {
            check_value(value, function, &instr_at(b, idx, &"SendChannel".to_string()), errors);
        },
        Instruction::Allocate { size, type_, .. } => {
            check_type(errors, function, type_, instr_at(b, idx, &typed_text("Allocate type", type_)));
            check_value(size, function, &instr_at(b, idx, &"Allocate size".to_string()), errors);
            proof {
                lemma_tagged_add(f, flag(type_@, instr_loc(b as nat, idx as nat, typed("Allocate type"@, type_@))),
                    value_locs(*size, instr_loc(b as nat, idx as nat, "Allocate size"@)));
            }
        },
        Instruction::Free { ptr } => {
            check_value(ptr, function, &instr_at(b, idx, &"Free".to_string()), errors);
        },
        _ => {
            assert(error_views(errors@) =~= error_views(e0) + tagged(f, instr_locs(*instr, b as nat, idx as nat)));
        },
    }
}

/// Records the findings of the literal patterns of a switch.
fn check_cases(cases: &Vec<(SemanticPattern, usize)>, function: &String, loc: &String, errors: &mut Vec<InvariantError>)
    ensures
        error_views(final(errors)@) == error_views(old(errors)@) + tagged(function@, cases_locs(cases@, loc@)),
{
    let ghost e0 = errors@;
    let mut i: usize = 0;
    assert(error_views(errors@) =~= error_views(e0) + tagged(function@, cases_locs(cases@.take(0), loc@)));
    while i < cases.len()
        invariant
            0 <= i <= cases@.len(),
            error_views(errors@) == error_views(e0) + tagged(function@, cases_locs(cases@.take(i as int), loc@)),
        decreases cases@.len() - i,
    {
        let ghost before = errors@;
        proof {
            assert(cases@.take(i + 1).drop_last() =~= cases@.take(i as int));
            assert(cases@.take(i + 1).last() == cases@[i as int]);
        }
        match &cases[i].0 {
            SemanticPattern::Literal(v) => {
                check_value(v, function, loc, errors);
                proof { lemma_tagged_add(function@, cases_locs(cases@.take(i as int), loc@), value_locs(*v, loc@)); }
            },
            _ => {
                assert(cases_locs(cases@.take(i + 1), loc@) =~= cases_locs(cases@.take(i as int), loc@));
            },
        }
        i = i + 1;
    }
    assert(cases@.take(cases@.len() as int) =~= cases@);
}

/// Records the findings of the terminator of block `b`.
fn check_terminator(term: &Terminator, function: &String, b: usize, errors: &mut Vec<InvariantError>)
    ensures
        error_views(final(errors)@) == error_views(old(errors)@) + tagged(function@, term_locs(*term, b as nat)),
{
    let ghost e0 = errors@;
    let ghost f = function@;
    match term {
        Terminator::Return { value: Some(v), type_ } => {
            check_type(errors, function, type_, term_at(b, &typed_text("Return type", type_)));
            check_value(v, function, &term_at(b, &"Return value".to_string()), errors);
            proof {
                lemma_tagged_add(f, flag(type_@, term_loc(b as nat, typed("Return type"@, type_@))),
                    value_locs(*v, term_loc(b as nat, "Return value"@)));
            }
        },
        Terminator::Branch { condition, .. } => {
            check_value(condition, function, &term_at(b, &"Branch condition".to_string()), errors);
        },
        Terminator::Switch { value, cases, .. } => {
            check_value(value, function, &term_at(b, &"Switch value".to_string()), errors);
            check_cases(cases, function, &term_at(b, &"Switch case literal".to_string()), errors);
            proof {
                lemma_tagged_add(f, value_locs(*value, term_loc(b as nat, "Switch value"@)),
                    cases_locs(cases@, term_loc(b as nat, "Switch case literal"@)));
            }
        },
        _ => {
            assert(error_views(errors@) =~= error_views(e0) + tagged(f, term_locs(*term, b as nat)));
        },
    }
}

/// Records the findings of one block: its instructions', then its
/// terminator's.
fn check_block(sb: &SemanticBlock, function: &String, errors: &mut Vec<InvariantError>)
    ensures
        error_views(final(errors)@) == error_views(old(errors)@) + tagged(function@, block_locs(*sb)),
{
    let ghost e0 = errors@;
    let ghost b = sb.id as nat;
    let mut i: usize = 0;
    assert(error_views(errors@) =~= error_views(e0) + tagged(function@, instrs_locs(sb.instructions@.take(0), b)));
    while i < sb.instructions.len()
        invariant
            0 <= i <= sb.instructions@.len(),
            b == sb.id as nat,
            error_views(errors@) == error_views(e0) + tagged(function@, instrs_locs(sb.instructions@.take(i as int), b)),
        decreases sb.instructions@.len() - i,
    {
        proof {
            let t = sb.instructions@.take(i + 1);
            assert(t.drop_last() =~= sb.instructions@.take(i as int));
            assert(t.last() == sb.instructions@[i as int]);
            lemma_tagged_add(function@, instrs_locs(sb.instructions@.take(i as int), b), instr_locs(sb.instructions@[i as int], b, i as nat));
        }
        check_instruction(&sb.instructions[i], function, sb.id, i, errors);
        i = i + 1;
    }
    assert(sb.instructions@.take(sb.instructions@.len() as int) =~= sb.instructions@);
    let ghost e1 = errors@;
    match &sb.terminator {
        Some(t) => {
            check_terminator(t, function, sb.id, errors);
            proof { lemma_tagged_add(function@, instrs_locs(sb.instructions@, b), term_locs(*t, b)); }
        },
        None => {
            assert(instrs_locs(sb.instructions@, b) + Seq::<Seq<char>>::empty() =~= instrs_locs(sb.instructions@, b));
        },
    }
}

/// Records the findings of one function: parameters, return type, blocks.
#[verifier::rlimit(40)]
fn check_function(func: &SemanticFunction, errors: &mut Vec<InvariantError>)
    ensures
        error_views(final(errors)@) == error_views(old(errors)@) + tagged(func.name@, function_locs(*func)),
{
    let ghost e0 = errors@;
    let ghost n = func.name@;
    let mut i: usize = 0;
    assert(error_views(errors@) =~= error_views(e0) + tagged(n, params_locs(func.params@.take(0))));
    while i < func.params.len()
        invariant
            0 <= i <= func.params@.len(),
            n == func.name@,
            error_views(errors@) == error_views(e0) + tagged(n, params_locs(func.params@.take(i as int))),
        decreases func.params@.len() - i,
    {
        let (name, ty) = &func.params[i];
        let mut text = "parameter `".to_string();
        text.append(name.as_str());
        text.append("` has type `");
        text.append(mangled_type_name(ty).as_str());
        text.append("`");
        let ghost before = params_locs(func.params@.take(i as int));
        proof {
            let t = func.params@.take(i + 1);
            assert(t.drop_last() =~= func.params@.take(i as int));
            assert(t.last() == func.params@[i as int]);
        }
        check_type(errors, &func.name, ty, text);
        proof {
            lemma_tagged_add(n, before, flag(ty@, "parameter `"@ + name@ + "` has type `"@ + mangle(ty@) + "`"@));
        }
        i = i + 1;
    }
    assert(func.params@.take(func.params@.len() as int) =~= func.params@);
    check_type(errors, &func.name, &func.return_type, typed_text("return type", &func.return_type));
    proof { lemma_tagged_add(n, params_locs(func.params@), flag(func.return_type@, typed("return type"@, func.return_type@))); }
    let ghost head = params_locs(func.params@) + flag(func.return_type@, typed("return type"@, func.return_type@));
    let mut j: usize = 0;
    assert(head + blocks_locs(func.blocks@.take(0)) =~= head);
    while j < func.blocks.len()
        invariant
            0 <= j <= func.blocks@.len(),
            n == func.name@,
            head == params_locs(func.params@) + flag(func.return_type@, typed("return type"@, func.return_type@)),
            error_views(errors@) == error_views(e0) + tagged(n, head + blocks_locs(func.blocks@.take(j as int))),
        decreases func.blocks@.len() - j,
    {
        proof {
            let t = func.blocks@.take(j + 1);
            assert(t.drop_last() =~= func.blocks@.take(j as int));
            assert(t.last() == func.blocks@[j as int]);
            lemma_tagged_add(n, head + blocks_locs(func.blocks@.take(j as int)), block_locs(func.blocks@[j as int]));
            assert(head + blocks_locs(func.blocks@.take(j + 1)) =~= head + blocks_locs(func.blocks@.take(j as int)) + block_locs(func.blocks@[j as int]));
        }
        check_block(&func.blocks[j], &func.name, errors);
        j = j + 1;
    }
    assert(func.blocks@.take(func.blocks@.len() as int) =~= func.blocks@);
}

/// Checks the invariant of executable IR: `Ok` when no type variable
/// appears anywhere it looks, else every finding, function by function.
/// The plan is not read.
pub fn check_invariants(program: &SemanticProgram, plan: &InstantiationPlan) -> (r: Result<(), Vec<InvariantError>>)
    ensures
        r is Ok <==> program_clean(program.functions@),
        r is Ok <==> program_findings(program.functions@).len() == 0,
        r matches Err(es) ==> error_views(es@) == program_findings(program.functions@),
{
    let mut errors: Vec<InvariantError> = Vec::new();
    let ghost fs = program.functions@;
    let mut i: usize = 0;
    assert(error_views(errors@) =~= program_findings(fs.take(0)));
    while i < program.functions.len()
        invariant
            0 <= i <= fs.len(),
            fs == program.functions@,
            error_views(errors@) == program_findings(fs.take(i as int)),
        decreases fs.len() - i,
    {
        let f = &program.functions[i];
        proof {
            let t = fs.take(i + 1);
            assert(t.drop_last() =~= fs.take(i as int));
            assert(t.last() == *f);
        }
        check_function(f, &mut errors);
        proof {
            assert(tagged(f.name@, function_locs(*f)) =~= Seq::new(function_locs(*f).len(), |k: int| (f.name@, function_locs(*f)[k])));
        }
        i = i + 1;
    }
    assert(fs.take(fs.len() as int) =~= fs);
    proof {
        lemma_findings_empty_iff_clean(fs);
    }
    if errors.len() == 0 {
        Ok(())
    } else {
        Err(errors)
    }
}

} // verus!
