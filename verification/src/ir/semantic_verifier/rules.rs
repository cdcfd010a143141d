//! The typing rules the verifier checks, as functions on models.

use vstd::prelude::*;
use crate::common::types::Ty;
use crate::ir::semantic_ir::values::{SemanticBinOp, TypedIRValue};
use crate::ir::semantic_ir::instructions::Instruction;
use crate::ir::semantic_ir::terminators::{Terminator, succs};
use crate::ir::semantic_ir::patterns::SemanticPattern;

verus! {

/// A defect the semantic verifier reports.
pub enum VErr {
    UndefinedVariable(Seq<char>),
    VariableTypeMismatch(Seq<char>),
    ListElementMismatch,
    IncompatibleOperands,
    BinaryOpMismatch,
    IllegalCast,
    IndexNotInt,
    NotIndexable,
    ElementTypeMismatch,
    ClaimMismatch,
    NotPointer,
    UndefinedFunction(Seq<char>),
    ArgCount(Seq<char>),
    ArgTypeMismatch(Seq<char>, nat),
    ReturnTypeMismatch(Seq<char>),
    ArrayLength,
    RangeBound,
    DeclareMismatch(Seq<char>),
    AssignUndefined(Seq<char>),
    AssignImmutable(Seq<char>),
    AssignMismatch(Seq<char>),
    ArrayAssignIndex,
    ArrayAssignTarget,
    ArrayAssignValue,
    IteratorNonList,
    ChannelDeclType(Seq<char>),
    SendUndeclared(Seq<char>),
    SendNonChannel(Seq<char>),
    ReceiveUndeclared(Seq<char>),
    ReceiveNonChannel(Seq<char>),
    AllocateSize,
    FreeNonPointer,
    ReturnValueMismatch,
    DeclaredReturnMismatch,
    BranchCondition,
    SwitchVoid,
    NoBlocks,
    MissingReturn,
    BlockNotFound(usize),
    NoTerminator(usize),
    Structure,
}

/// What the verifier knows at a program point: variable types and
/// mutability, function signatures (parameter types and return type),
/// and the element type of each active iterator.
pub struct EnvModel {
    pub vars: Map<Seq<char>, Ty>,
    pub muts: Map<Seq<char>, bool>,
    pub sigs: Map<Seq<char>, (Seq<Ty>, Ty)>,
    pub iters: Map<Seq<char>, Ty>,
}

/// `t` carries a claim: it is not `Unknown`.
pub open spec fn known(t: Ty) -> bool {
    t != Ty::Unknown
}

/// An argument of type `a` may be passed for a parameter of type `p`:
/// `Int` widens to `Float` (never the reverse), equal types match,
/// `Unknown` on either side matches anything, like constructors match
/// when their components do, and otherwise `a` must coerce to `p`.
pub open spec fn compatible(a: Ty, p: Ty) -> bool
    decreases a,
{
    if a.numeric() && p.numeric() {
        !(a == Ty::Float && p == Ty::Int)
    } else if a == p || a == Ty::Unknown || p == Ty::Unknown {
        true
    } else {
        match a {
            Ty::List(x) => match p { Ty::List(y) => compatible(*x, *y), _ => a.coerces_to(p) },
            Ty::Array(x, _) => match p { Ty::Array(y, _) => compatible(*x, *y), _ => a.coerces_to(p) },
            Ty::Opt(x) => match p { Ty::Opt(y) => compatible(*x, *y), _ => a.coerces_to(p) },
            Ty::Res(x1, x2) => match p {
                Ty::Res(y1, y2) => compatible(*x1, *y1) && compatible(*x2, *y2),
                _ => a.coerces_to(p),
            },
            Ty::Pointer(x) => match p { Ty::Pointer(y) => compatible(*x, *y), _ => a.coerces_to(p) },
            Ty::Borrow(x) => match p { Ty::Borrow(y) => compatible(*x, *y), _ => a.coerces_to(p) },
            Ty::MutBorrow(x) => match p { Ty::MutBorrow(y) => compatible(*x, *y), _ => a.coerces_to(p) },
            Ty::Channel(x) => match p { Ty::Channel(y) => compatible(*x, *y), _ => a.coerces_to(p) },
            _ => a.coerces_to(p),
        }
    }
}

/// The type of `l op r` for operand types `lt` and `rt`.
pub open spec fn binop_check(op: SemanticBinOp, lt: Ty, rt: Ty) -> Result<Ty, VErr> {
    match op {
        SemanticBinOp::Add => {
            if lt == Ty::Str && rt == Ty::Str {
                Ok(Ty::Str)
            } else if lt.numeric() && rt.numeric() {
                Ok(lt.supertype(rt))
            } else if lt == Ty::Unknown || rt == Ty::Unknown {
                Ok(Ty::Unknown)
            } else {
                Err(VErr::IncompatibleOperands)
            }
        },
        SemanticBinOp::Subtract | SemanticBinOp::Multiply | SemanticBinOp::Divide => {
            if lt.numeric() && rt.numeric() {
                Ok(lt.supertype(rt))
            } else if lt == Ty::Unknown || rt == Ty::Unknown {
                Ok(Ty::Unknown)
            } else {
                Err(VErr::IncompatibleOperands)
            }
        },
        SemanticBinOp::Greater | SemanticBinOp::Less | SemanticBinOp::GreaterEqual | SemanticBinOp::LessEqual => {
            if (lt.numeric() && rt.numeric()) || lt == Ty::Unknown || rt == Ty::Unknown {
                Ok(Ty::Bool)
            } else {
                Err(VErr::IncompatibleOperands)
            }
        },
        SemanticBinOp::Equal | SemanticBinOp::NotEqual => Ok(Ty::Bool),
    }
}

/// A claimed type agrees with a computed one: equal, or either unknown.
pub open spec fn claim_ok(claimed: Ty, actual: Ty) -> bool {
    !known(claimed) || !known(actual) || claimed == actual
}

/// The element type of something indexable, if it is.
pub open spec fn elem_of(t: Ty) -> Option<Ty> {
    match t {
        Ty::List(x) => Some(*x),
        Ty::Array(x, _) => Some(*x),
        Ty::Unknown => Some(Ty::Unknown),
        _ => None,
    }
}

/// The type of `v` in `env`, or the first defect found.
pub open spec fn value_check(v: TypedIRValue, env: EnvModel) -> Result<Ty, VErr>
    decreases v,
{
    match v {
        TypedIRValue::Int(_) => Ok(Ty::Int),
        TypedIRValue::Float(_) => Ok(Ty::Float),
        TypedIRValue::Bool(_) => Ok(Ty::Bool),
        TypedIRValue::String(_) => Ok(Ty::Str),
        TypedIRValue::Void => Ok(Ty::Void),
        TypedIRValue::NullPtr => Ok(Ty::Ptr),
        TypedIRValue::PtrLiteral(_) => Ok(Ty::Ptr),
        TypedIRValue::Variable(name, claimed) => {
            if !env.vars.contains_key(name@) {
                Err(VErr::UndefinedVariable(name@))
            } else if !claim_ok(claimed@, env.vars[name@]) {
                Err(VErr::VariableTypeMismatch(name@))
            } else {
                Ok(env.vars[name@])
            }
        },
        TypedIRValue::List(es, claimed) => match elems_check(es@, env) {
            Err(e) => Err(e),
            Ok(c) => {
                let elem = match c { Some(t) => t, None => Ty::Unknown };
                if !claim_ok(claimed@, elem) {
                    Err(VErr::ListElementMismatch)
                } else {
                    Ok(Ty::List(Box::new(elem)))
                }
            },
        },
        TypedIRValue::BinaryOp { op, left, right, result_type } => match value_check(*left, env) {
            Err(e) => Err(e),
            Ok(lt) => match value_check(*right, env) {
                Err(e) => Err(e),
                Ok(rt) => match binop_check(op, lt, rt) {
                    Err(e) => Err(e),
                    Ok(t) => if !claim_ok(result_type@, t) { Err(VErr::BinaryOpMismatch) } else { Ok(t) },
                },
            },
        },
        TypedIRValue::Cast { value, target_type } => match value_check(*value, env) {
            Err(e) => Err(e),
            Ok(s) => {
                if known(s) && known(target_type@) && s != target_type@ && !s.casts_to(target_type@) {
                    Err(VErr::IllegalCast)
                } else {
                    Ok(target_type@)
                }
            },
        },
        TypedIRValue::ArrayAccess { array, index, element_type } => match value_check(*array, env) {
            Err(e) => Err(e),
            Ok(at) => match value_check(*index, env) {
                Err(e) => Err(e),
                Ok(it) => {
                    if known(it) && it != Ty::Int {
                        Err(VErr::IndexNotInt)
                    } else {
                        match elem_of(at) {
                            None => Err(VErr::NotIndexable),
                            Some(el) => if !claim_ok(element_type@, el) { Err(VErr::ElementTypeMismatch) } else { Ok(el) },
                        }
                    }
                },
            },
        },
        TypedIRValue::Borrow { expr, target_type } => match value_check(*expr, env) {
            Err(e) => Err(e),
            Ok(i) => {
                let t = Ty::Borrow(Box::new(i));
                if !claim_ok(target_type@, t) { Err(VErr::ClaimMismatch) } else { Ok(t) }
            },
        },
        TypedIRValue::MutBorrow { expr, target_type } => match value_check(*expr, env) {
            Err(e) => Err(e),
            Ok(i) => {
                let t = Ty::MutBorrow(Box::new(i));
                if !claim_ok(target_type@, t) { Err(VErr::ClaimMismatch) } else { Ok(t) }
            },
        },
        TypedIRValue::AddrOf { expr, target_type } => match value_check(*expr, env) {
            Err(e) => Err(e),
            Ok(i) => {
                let t = Ty::Pointer(Box::new(i));
                if !claim_ok(target_type@, t) { Err(VErr::ClaimMismatch) } else { Ok(t) }
            },
        },
        TypedIRValue::Deref { expr, target_type } => match value_check(*expr, env) {
            Err(e) => Err(e),
            Ok(i) => {
                let inner = match i {
                    Ty::Pointer(x) => Some(*x),
                    Ty::Borrow(x) => Some(*x),
                    Ty::MutBorrow(x) => Some(*x),
                    Ty::Unknown => Some(Ty::Unknown),
                    _ => None,
                };
                match inner {
                    None => Err(VErr::NotPointer),
                    Some(t) => if !claim_ok(target_type@, t) { Err(VErr::ClaimMismatch) } else { Ok(t) },
                }
            },
        },
        TypedIRValue::Call { function, args, return_type } => match args_check(args@, env) {
            Err(e) => Err(e),
            Ok(ats) => call_check(function@, ats, return_type@, env),
        },
        TypedIRValue::Array(es, claimed, len) => {
            if es@.len() != len {
                Err(VErr::ArrayLength)
            } else {
                match elems_check(es@, env) {
                    Err(e) => Err(e),
                    Ok(c) => {
                        let elem = match c { Some(t) => t, None => Ty::Unknown };
                        if !claim_ok(claimed@, elem) {
                            Err(VErr::ElementTypeMismatch)
                        } else {
                            Ok(Ty::Array(Box::new(elem), len as nat))
                        }
                    },
                }
            }
        },
        TypedIRValue::Range(start, end) => match value_check(*start, env) {
            Err(e) => Err(e),
            Ok(st) => match value_check(*end, env) {
                Err(e) => Err(e),
                Ok(et) => {
                    if !st.numeric() && known(st) {
                        Err(VErr::RangeBound)
                    } else if !et.numeric() && known(et) {
                        Err(VErr::RangeBound)
                    } else {
                        Ok(Ty::List(Box::new(st.supertype(et))))
                    }
                },
            },
        },
        TypedIRValue::FieldAccess { object, field_type, .. } => match value_check(*object, env) {
            Err(e) => Err(e),
            Ok(_) => Ok(field_type@),
        },
        TypedIRValue::SomeValue(inner) => match value_check(*inner, env) {
            Err(e) => Err(e),
            Ok(t) => Ok(Ty::Opt(Box::new(t))),
        },
        TypedIRValue::OkValue { value, result_type } => match value_check(*value, env) {
            Err(e) => Err(e),
            Ok(_) => Ok(result_type@),
        },
        TypedIRValue::Error { value, result_type } => match value_check(*value, env) {
            Err(e) => Err(e),
            Ok(_) => Ok(result_type@),
        },
        TypedIRValue::NoneValue { option_type } => Ok(option_type@),
    }
}

/// The common type of `es`, in order, stopping at the first defect;
/// `None` for no elements.
pub open spec fn elems_check(es: Seq<TypedIRValue>, env: EnvModel) -> Result<Option<Ty>, VErr>
    decreases es,
{
    if es.len() == 0 {
        Ok(None)
    } else {
        match elems_check(es.drop_last(), env) {
            Err(e) => Err(e),
            Ok(c) => match value_check(es.last(), env) {
                Err(e) => Err(e),
                Ok(t) => Ok(Some(match c { Some(p) => p.supertype(t), None => t })),
            },
        }
    }
}

/// The types of `es`, in order, stopping at the first defect.
pub open spec fn args_check(es: Seq<TypedIRValue>, env: EnvModel) -> Result<Seq<Ty>, VErr>
    decreases es,
{
    if es.len() == 0 {
        Ok(Seq::empty())
    } else {
        match args_check(es.drop_last(), env) {
            Err(e) => Err(e),
            Ok(ts) => match value_check(es.last(), env) {
                Err(e) => Err(e),
                Ok(t) => Ok(ts.push(t)),
            },
        }
    }
}

/// Argument `a` fits parameter `p` of a call; `generic_ok` also lets a
/// parameter that mentions a type variable take anything.
pub open spec fn arg_fits(a: Ty, p: Ty, generic_ok: bool) -> bool {
    !known(a) || !known(p) || (generic_ok && p.has_type_var()) || compatible(a, p)
}

/// The first argument that does not fit its parameter, if any.
pub open spec fn first_misfit(args: Seq<Ty>, params: Seq<Ty>, generic_ok: bool, from: nat) -> Option<nat>
    decreases args.len() - from,
{
    if from >= args.len() || from >= params.len() {
        None
    } else if !arg_fits(args[from as int], params[from as int], generic_ok) {
        Some(from)
    } else {
        first_misfit(args, params, generic_ok, from + 1)
    }
}

/// A value-form call of `f` with argument types `ats` claiming `ret`.
pub open spec fn call_check(f: Seq<char>, ats: Seq<Ty>, ret: Ty, env: EnvModel) -> Result<Ty, VErr> {
    if !env.sigs.contains_key(f) {
        Err(VErr::UndefinedFunction(f))
    } else {
        let (params, sret) = env.sigs[f];
        if ats.len() != params.len() {
            Err(VErr::ArgCount(f))
        } else {
            match first_misfit(ats, params, true, 0) {
                Some(i) => Err(VErr::ArgTypeMismatch(f, i)),
                None => {
                    let generic = sret.has_type_var();
                    if !generic && known(ret) && known(sret) && ret != sret {
                        Err(VErr::ReturnTypeMismatch(f))
                    } else if generic && known(ret) {
                        Ok(ret)
                    } else {
                        Ok(sret)
                    }
                },
            }
        }
    }
}


/// `env` with `name` bound to type `t` and mutability `m`.
pub open spec fn with_var(env: EnvModel, name: Seq<char>, t: Ty, m: bool) -> EnvModel {
    EnvModel { vars: env.vars.insert(name, t), muts: env.muts.insert(name, m), sigs: env.sigs, iters: env.iters }
}

/// `env` recording element type `t` for iterator `name`.
pub open spec fn with_iter(env: EnvModel, name: Seq<char>, t: Ty) -> EnvModel {
    EnvModel { vars: env.vars, muts: env.muts, sigs: env.sigs, iters: env.iters.insert(name, t) }
}

/// The element type recorded for an iterator, `Unknown` if none.
pub open spec fn iter_elem(env: EnvModel, name: Seq<char>) -> Ty {
    if env.iters.contains_key(name) { env.iters[name] } else { Ty::Unknown }
}

/// The environment after `instr`, or its defect.
pub open spec fn instr_check(instr: Instruction, env: EnvModel) -> Result<EnvModel, VErr> {
    match instr {
        Instruction::Nop => Ok(env),
        Instruction::RegionEnter { .. } => Ok(env),
        Instruction::RegionExit { .. } => Ok(env),
        Instruction::Declare { name, mutable, type_, value } => match value_check(value, env) {
            Err(e) => Err(e),
            Ok(vt) => {
                if !(value is Void) && known(type_@) && known(vt) && !vt.coerces_to(type_@) && vt != type_@ {
                    Err(VErr::DeclareMismatch(name@))
                } else {
                    Ok(with_var(env, name@, type_@, mutable))
                }
            },
        },
        Instruction::Assign { target, value } => {
            if !env.vars.contains_key(target@) {
                Err(VErr::AssignUndefined(target@))
            } else if !(env.muts.contains_key(target@) && env.muts[target@]) {
                Err(VErr::AssignImmutable(target@))
            } else {
                match value_check(value, env) {
                    Err(e) => Err(e),
                    Ok(vt) => {
                        let expected = match env.vars[target@] {
                            Ty::MutBorrow(x) => *x,
                            t => t,
                        };
                        if !compatible(vt, expected) { Err(VErr::AssignMismatch(target@)) } else { Ok(env) }
                    },
                }
            }
        },
        Instruction::Print { value } => match value_check(value, env) {
            Err(e) => Err(e),
            Ok(_) => Ok(env),
        },
        Instruction::ArrayAssign { array, index, value } => match value_check(*array, env) {
            Err(e) => Err(e),
            Ok(at) => match value_check(*index, env) {
                Err(e) => Err(e),
                Ok(it) => {
                    if known(it) && it != Ty::Int {
                        Err(VErr::ArrayAssignIndex)
                    } else {
                        match elem_of(at) {
                            None => Err(VErr::ArrayAssignTarget),
                            Some(el) => match value_check(value, env) {
                                Err(e) => Err(e),
                                Ok(vt) => {
                                    if known(el) && known(vt) && !vt.coerces_to(el) && vt != el {
                                        Err(VErr::ArrayAssignValue)
                                    } else {
                                        Ok(env)
                                    }
                                },
                            },
                        }
                    }
                },
            },
        },
        Instruction::Call { func, args, result } => match args_check(args@, env) {
            Err(e) => Err(e),
            Ok(ats) => {
                if !env.sigs.contains_key(func@) {
                    Err(VErr::UndefinedFunction(func@))
                } else {
                    let (params, sret) = env.sigs[func@];
                    if ats.len() != params.len() {
                        Err(VErr::ArgCount(func@))
                    } else {
                        match first_misfit(ats, params, false, 0) {
                            Some(i) => Err(VErr::ArgTypeMismatch(func@, i)),
                            None => match result {
                                Some(name) => Ok(with_var(env, name@, if sret.has_type_var() { Ty::Unknown } else { sret }, false)),
                                None => Ok(env),
                            },
                        }
                    }
                }
            },
        },
        Instruction::IteratorInit { iterator, iterable } => match value_check(iterable, env) {
            Err(e) => Err(e),
            Ok(t) => match elem_of(t) {
                None => Err(VErr::IteratorNonList),
                Some(el) => Ok(with_iter(env, iterator@, el)),
            },
        },
        Instruction::ChannelDecl { name, type_ } => {
            if type_@ is Channel || type_@ == Ty::Unknown {
                Ok(with_var(env, name@, type_@, false))
            } else {
                Err(VErr::ChannelDeclType(name@))
            }
        },
        Instruction::Send { channel, value } => send_check(channel@, value, env),
        Instruction::ChannelSend { channel, value } => send_check(channel@, value, env),
        Instruction::Receive { channel, target } => receive_check(channel@, target@, env),
        Instruction::ChannelReceive { channel, target } => receive_check(channel@, target@, env),
        Instruction::Allocate { target, size, type_ } => match value_check(size, env) {
            Err(e) => Err(e),
            Ok(st) => {
                if known(st) && st != Ty::Int {
                    Err(VErr::AllocateSize)
                } else {
                    Ok(with_var(env, target@, type_@, true))
                }
            },
        },
        Instruction::Free { ptr } => match value_check(ptr, env) {
            Err(e) => Err(e),
            Ok(pt) => {
                if pt is Pointer || pt == Ty::Ptr || pt == Ty::Unknown { Ok(env) } else { Err(VErr::FreeNonPointer) }
            },
        },
    }
}

pub open spec fn send_check(channel: Seq<char>, value: TypedIRValue, env: EnvModel) -> Result<EnvModel, VErr> {
    if !env.vars.contains_key(channel) {
        Err(VErr::SendUndeclared(channel))
    } else if !(env.vars[channel] is Channel || env.vars[channel] == Ty::Unknown) {
        Err(VErr::SendNonChannel(channel))
    } else {
        match value_check(value, env) {
            Err(e) => Err(e),
            Ok(_) => Ok(env),
        }
    }
}

pub open spec fn receive_check(channel: Seq<char>, target: Seq<char>, env: EnvModel) -> Result<EnvModel, VErr> {
    if !env.vars.contains_key(channel) {
        Err(VErr::ReceiveUndeclared(channel))
    } else {
        match env.vars[channel] {
            Ty::Channel(t) => Ok(with_var(env, target, *t, true)),
            Ty::Unknown => Ok(with_var(env, target, Ty::Unknown, true)),
            _ => Err(VErr::ReceiveNonChannel(channel)),
        }
    }
}

/// The environment after the instructions `is`, in order, or the first
/// defect.
pub open spec fn instrs_check(is: Seq<Instruction>, env: EnvModel) -> Result<EnvModel, VErr>
    decreases is.len(),
{
    if is.len() == 0 {
        Ok(env)
    } else {
        match instrs_check(is.drop_last(), env) {
            Err(e) => Err(e),
            Ok(e2) => instr_check(is.last(), e2),
        }
    }
}

/// The environment after terminator `t` of a function returning `ret`,
/// or its defect.
pub open spec fn term_check(ret: Ty, t: Terminator, env: EnvModel) -> Result<EnvModel, VErr> {
    match t {
        Terminator::Return { value, type_ } => {
            let vr = match value {
                Some(v) => match value_check(v, env) {
                    Err(e) => Err(e),
                    Ok(at) => {
                        if known(at) && known(type_@) && at != type_@ && !at.coerces_to(type_@) {
                            Err(VErr::ReturnValueMismatch)
                        } else {
                            Ok(())
                        }
                    },
                },
                None => Ok(()),
            };
            match vr {
                Err(e) => Err(e),
                Ok(_) => {
                    if known(type_@) && known(ret) && type_@ != ret {
                        Err(VErr::DeclaredReturnMismatch)
                    } else {
                        Ok(env)
                    }
                },
            }
        },
        Terminator::Branch { condition, .. } => match value_check(condition, env) {
            Err(e) => Err(e),
            Ok(ct) => if known(ct) && ct != Ty::Bool { Err(VErr::BranchCondition) } else { Ok(env) },
        },
        Terminator::Switch { value, .. } => match value_check(value, env) {
            Err(e) => Err(e),
            Ok(vt) => if vt == Ty::Void { Err(VErr::SwitchVoid) } else { Ok(env) },
        },
        Terminator::IteratorNext { iterator, target, .. } =>
            Ok(with_var(env, target@, iter_elem(env, iterator@), false)),
        _ => Ok(env),
    }
}

/// The variable a switch pattern binds, if any.
pub open spec fn pattern_binding(p: SemanticPattern) -> Option<Seq<char>> {
    match p {
        SemanticPattern::SomeBinding { binding } => Some(binding@),
        SemanticPattern::OkBinding { binding } => Some(binding@),
        SemanticPattern::Error { binding } => Some(binding@),
        _ => None,
    }
}

/// The environment a switch case's target block starts in.
pub open spec fn case_env(p: SemanticPattern, env: EnvModel) -> EnvModel {
    match pattern_binding(p) {
        Some(n) => with_var(env, n, Ty::Unknown, false),
        None => env,
    }
}

/// Each successor of `t` with the environment it is checked in.
pub open spec fn successors_with_envs(t: Terminator, env: EnvModel) -> Seq<(usize, EnvModel)> {
    match t {
        Terminator::Switch { cases, default_block, .. } => {
            let cs = Seq::new(cases@.len(), |i: int| (cases@[i].1, case_env(cases@[i].0, env)));
            match default_block {
                Some(d) => cs.push((d, env)),
                None => cs,
            }
        },
        Terminator::IteratorNext { iterator, target, body_block, exit_block } =>
            seq![(body_block, with_var(env, target@, iter_elem(env, iterator@), false)), (exit_block, env)],
        _ => Seq::new(succs(t).len(), |i: int| (succs(t)[i], env)),
    }
}

} // verus!
