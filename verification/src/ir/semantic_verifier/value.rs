//! Typing of values, checked against the claims they carry.

use vstd::prelude::*;
use crate::common::types::{Type, Ty};
use crate::ir::semantic_ir::values::{SemanticBinOp, TypedIRValue};
use super::rules::{VErr, EnvModel, compatible, binop_check, value_check, elems_check, args_check, call_check,
    first_misfit, arg_fits, known};
use super::{VerifyEnv, VerifyError, ty_result, find_type, find_sig, sig_model};

verus! {

/// Whether an argument of type `arg_ty` may be passed for a parameter of
/// type `param_ty`; see `rules::compatible`.
pub fn types_compatible_for_call(arg_ty: &Type, param_ty: &Type) -> (r: bool)
    ensures
        r == compatible(arg_ty@, param_ty@),
    decreases arg_ty,
{
    if arg_ty.is_numeric() && param_ty.is_numeric() {
        return !(matches!(arg_ty, Type::Float) && matches!(param_ty, Type::Int));
    }
    if arg_ty.type_eq(param_ty) || arg_ty.is_unknown() || param_ty.is_unknown() {
        return true;
    }
    match arg_ty {
        Type::List(x) => match param_ty {
            Type::List(y) => types_compatible_for_call(x, y),
            _ => arg_ty.can_coerce_to(param_ty),
        },
        Type::Array(x, _) => match param_ty {
            Type::Array(y, _) => types_compatible_for_call(x, y),
            _ => arg_ty.can_coerce_to(param_ty),
        },
        Type::Option(x) => match param_ty {
            Type::Option(y) => types_compatible_for_call(x, y),
            _ => arg_ty.can_coerce_to(param_ty),
        },
        Type::Result { ok: x1, error: x2 } => match param_ty {
            Type::Result { ok: y1, error: y2 } => types_compatible_for_call(x1, y1) && types_compatible_for_call(x2, y2),
            _ => arg_ty.can_coerce_to(param_ty),
        },
        Type::Pointer(x) => match param_ty {
            Type::Pointer(y) => types_compatible_for_call(x, y),
            _ => arg_ty.can_coerce_to(param_ty),
        },
        Type::Borrow(x) => match param_ty {
            Type::Borrow(y) => types_compatible_for_call(x, y),
            _ => arg_ty.can_coerce_to(param_ty),
        },
        Type::MutBorrow(x) => match param_ty {
            Type::MutBorrow(y) => types_compatible_for_call(x, y),
            _ => arg_ty.can_coerce_to(param_ty),
        },
        Type::Channel(x) => match param_ty {
            Type::Channel(y) => types_compatible_for_call(x, y),
            _ => arg_ty.can_coerce_to(param_ty),
        },
        _ => arg_ty.can_coerce_to(param_ty),
    }
}

/// The type of a binary operation on operands of types `lt` and `rt`;
/// see `rules::binop_check`.
pub fn compute_binop_type(op: SemanticBinOp, lt: &Type, rt: &Type) -> (r: Result<Type, VerifyError>)
    ensures
        ty_result(r) == binop_check(op, lt@, rt@),
{
    match op {
        SemanticBinOp::Add => {
            if matches!(lt, Type::String) && matches!(rt, Type::String) {
                Ok(Type::String)
            } else if lt.is_numeric() && rt.is_numeric() {
                Ok(lt.common_supertype(rt))
            } else if lt.is_unknown() || rt.is_unknown() {
                Ok(Type::Unknown)
            } else {
                Err(VerifyError::IncompatibleOperands)
            }
        },
        SemanticBinOp::Subtract | SemanticBinOp::Multiply | SemanticBinOp::Divide => {
            if lt.is_numeric() && rt.is_numeric() {
                Ok(lt.common_supertype(rt))
            } else if lt.is_unknown() || rt.is_unknown() {
                Ok(Type::Unknown)
            } else {
                Err(VerifyError::IncompatibleOperands)
            }
        },
        SemanticBinOp::Greater | SemanticBinOp::Less | SemanticBinOp::GreaterEqual | SemanticBinOp::LessEqual => {
            if (lt.is_numeric() && rt.is_numeric()) || lt.is_unknown() || rt.is_unknown() {
                Ok(Type::Bool)
            } else {
                Err(VerifyError::IncompatibleOperands)
            }
        },
        SemanticBinOp::Equal | SemanticBinOp::NotEqual => Ok(Type::Bool),
    }
}

/// Whether a claimed type agrees with a computed one.
fn claim_agrees(claimed: &Type, actual: &Type) -> (r: bool)
    ensures
        r == super::rules::claim_ok(claimed@, actual@),
{
    claimed.is_unknown() || actual.is_unknown() || claimed.type_eq(actual)
}

/// The common type of `es` (see `rules::elems_check`).
fn verify_elems(es: &Vec<TypedIRValue>, env: &VerifyEnv) -> (r: Result<Option<Type>, VerifyError>)
    ensures
        match r {
            Ok(c) => elems_check(es@, env.model()) == Ok::<Option<Ty>, VErr>(match c { Some(t) => Some(t@), None => None }),
            Err(e) => elems_check(es@, env.model()) == Err::<Option<Ty>, VErr>(e@),
        },
    decreases es,
{
    let mut common: Option<Type> = None;
    let mut i: usize = 0;
    assert(es@.take(0) =~= Seq::<TypedIRValue>::empty());
    while i < es.len()
        invariant
            0 <= i <= es@.len(),
            elems_check(es@.take(i as int), env.model()) == Ok::<Option<Ty>, VErr>(match common { Some(t) => Some(t@), None => None }),
        decreases es@.len() - i,
    {
        assert(decreases_to!(es => es@[i as int]));
        assert(es@.take(i + 1).drop_last() =~= es@.take(i as int));
        assert(es@.take(i + 1).last() == es@[i as int]);
        match verify_value(&es[i], env) {
            Err(e) => {
                proof { lemma_elems_prefix_err(es@, env.model(), i as int); }
                return Err(e);
            },
            Ok(t) => {
                common = Some(match common {
                    None => t,
                    Some(p) => p.common_supertype(&t),
                });
            },
        }
        i = i + 1;
    }
    assert(es@.take(es@.len() as int) =~= es@);
    Ok(common)
}

/// An error at some prefix is the error of the whole.
proof fn lemma_elems_prefix_err(es: Seq<TypedIRValue>, env: EnvModel, i: int)
    requires
        0 <= i < es.len(),
        elems_check(es.take(i + 1), env) is Err,
    ensures
        elems_check(es, env) == elems_check(es.take(i + 1), env),
    decreases es.len(),
{
    if es.len() > i + 1 {
        let init = es.drop_last();
        assert(init.take(i + 1) =~= es.take(i + 1));
        lemma_elems_prefix_err(init, env, i);
    } else {
        assert(es.take(i + 1) =~= es);
    }
}

/// An error at some prefix is the error of the whole.
proof fn lemma_args_prefix_err(es: Seq<TypedIRValue>, env: EnvModel, i: int)
    requires
        0 <= i < es.len(),
        args_check(es.take(i + 1), env) is Err,
    ensures
        args_check(es, env) == args_check(es.take(i + 1), env),
    decreases es.len(),
{
    if es.len() > i + 1 {
        let init = es.drop_last();
        assert(init.take(i + 1) =~= es.take(i + 1));
        lemma_args_prefix_err(init, env, i);
    } else {
        assert(es.take(i + 1) =~= es);
    }
}

/// The types of `es`, in order (see `rules::args_check`).
fn verify_args(es: &Vec<TypedIRValue>, env: &VerifyEnv) -> (r: Result<Vec<Type>, VerifyError>)
    ensures
        match r {
            Ok(ts) => args_check(es@, env.model()) == Ok::<Seq<Ty>, VErr>(Seq::new(ts@.len(), |i: int| ts@[i]@)),
            Err(e) => args_check(es@, env.model()) == Err::<Seq<Ty>, VErr>(e@),
        },
    decreases es,
{
    let mut out: Vec<Type> = Vec::new();
    let mut i: usize = 0;
    assert(es@.take(0) =~= Seq::<TypedIRValue>::empty());
    assert(Seq::new(0, |j: int| out@[j]@) =~= Seq::<Ty>::empty());
    while i < es.len()
        invariant
            0 <= i <= es@.len(),
            out@.len() == i,
            args_check(es@.take(i as int), env.model()) == Ok::<Seq<Ty>, VErr>(Seq::new(out@.len(), |j: int| out@[j]@)),
        decreases es@.len() - i,
    {
        assert(decreases_to!(es => es@[i as int]));
        assert(es@.take(i + 1).drop_last() =~= es@.take(i as int));
        assert(es@.take(i + 1).last() == es@[i as int]);
        match verify_value(&es[i], env) {
            Err(e) => {
                proof { lemma_args_prefix_err(es@, env.model(), i as int); }
                return Err(e);
            },
            Ok(t) => {
                let ghost prev = Seq::new(out@.len(), |j: int| out@[j]@);
                out.push(t);
                assert(Seq::new(out@.len(), |j: int| out@[j]@) =~= prev.push(t@));
            },
        }
        i = i + 1;
    }
    assert(es@.take(es@.len() as int) =~= es@);
    Ok(out)
}

/// The type of `value` in `env`, or the first defect found; see
/// `rules::value_check`.
pub fn verify_value(value: &TypedIRValue, env: &VerifyEnv) -> (r: Result<Type, VerifyError>)
    ensures
        ty_result(r) == value_check(*value, env.model()),
    decreases value,
{
    match value {
        TypedIRValue::Int(_) => Ok(Type::Int),
        TypedIRValue::Float(_) => Ok(Type::Float),
        TypedIRValue::Bool(_) => Ok(Type::Bool),
        TypedIRValue::String(_) => Ok(Type::String),
        TypedIRValue::Void => Ok(Type::Void),
        TypedIRValue::NullPtr => Ok(Type::Ptr),
        TypedIRValue::PtrLiteral(_) => Ok(Type::Ptr),
        TypedIRValue::Variable(name, claimed) => match find_type(&env.variables, name) {
            None => Err(VerifyError::UndefinedVariable(name.clone())),
            Some(i) => {
                let actual = &env.variables[i].1;
                if !claim_agrees(claimed, actual) {
                    Err(VerifyError::VariableTypeMismatch(name.clone()))
                } else {
                    Ok(actual.deep_clone())
                }
            },
        },
        TypedIRValue::List(es, claimed) => match verify_elems(es, env) {
            Err(e) => Err(e),
            Ok(c) => {
                let elem = match c { Some(t) => t, None => Type::Unknown };
                if !claim_agrees(claimed, &elem) {
                    Err(VerifyError::ListElementMismatch)
                } else {
                    Ok(Type::list(elem))
                }
            },
        },
        TypedIRValue::BinaryOp { op, left, right, result_type } => match verify_value(left, env) {
            Err(e) => Err(e),
            Ok(lt) => match verify_value(right, env) {
                Err(e) => Err(e),
                Ok(rt) => match compute_binop_type(*op, &lt, &rt) {
                    Err(e) => Err(e),
                    Ok(t) => if !claim_agrees(result_type, &t) { Err(VerifyError::BinaryOpMismatch) } else { Ok(t) },
                },
            },
        },
        TypedIRValue::Cast { value, target_type } => match verify_value(value, env) {
            Err(e) => Err(e),
            Ok(s) => {
                if !s.is_unknown() && !target_type.is_unknown() && !s.type_eq(target_type) && !s.can_cast_to(target_type) {
                    Err(VerifyError::IllegalCast)
                } else {
                    Ok(target_type.deep_clone())
                }
            },
        },
        TypedIRValue::ArrayAccess { array, index, element_type } => match verify_value(array, env) {
            Err(e) => Err(e),
            Ok(at) => match verify_value(index, env) {
                Err(e) => Err(e),
                Ok(it) => {
                    if !it.is_unknown() && !matches!(it, Type::Int) {
                        Err(VerifyError::IndexNotInt)
                    } else {
                        let el = match at {
                            Type::List(x) => *x,
                            Type::Array(x, _) => *x,
                            Type::Unknown => Type::Unknown,
                            _ => {
                                return Err(VerifyError::NotIndexable);
                            },
                        };
                        if !claim_agrees(element_type, &el) { Err(VerifyError::ElementTypeMismatch) } else { Ok(el) }
                    }
                },
            },
        },
        TypedIRValue::Borrow { expr, target_type } => match verify_value(expr, env) {
            Err(e) => Err(e),
            Ok(i) => {
                let t = Type::borrow(i);
                if !claim_agrees(target_type, &t) { Err(VerifyError::ClaimMismatch) } else { Ok(t) }
            },
        },
        TypedIRValue::MutBorrow { expr, target_type } => match verify_value(expr, env) {
            Err(e) => Err(e),
            Ok(i) => {
                let t = Type::mut_borrow(i);
                if !claim_agrees(target_type, &t) { Err(VerifyError::ClaimMismatch) } else { Ok(t) }
            },
        },
        TypedIRValue::AddrOf { expr, target_type } => match verify_value(expr, env) {
            Err(e) => Err(e),
            Ok(i) => {
                let t = Type::pointer(i);
                if !claim_agrees(target_type, &t) { Err(VerifyError::ClaimMismatch) } else { Ok(t) }
            },
        },
        TypedIRValue::Deref { expr, target_type } => match verify_value(expr, env) {
            Err(e) => Err(e),
            Ok(i) => {
                let t = match i {
                    Type::Pointer(x) => *x,
                    Type::Borrow(x) => *x,
                    Type::MutBorrow(x) => *x,
                    Type::Unknown => Type::Unknown,
                    _ => {
                        return Err(VerifyError::NotPointer);
                    },
                };
                if !claim_agrees(target_type, &t) { Err(VerifyError::ClaimMismatch) } else { Ok(t) }
            },
        },
        TypedIRValue::Call { function, args, return_type } => match verify_args(args, env) {
            Err(e) => Err(e),
            Ok(ats) => check_call(function, &ats, return_type, env),
        },
        TypedIRValue::Array(es, claimed, len) => {
            if es.len() != *len {
                Err(VerifyError::ArrayLength)
            } else {
                match verify_elems(es, env) {
                    Err(e) => Err(e),
                    Ok(c) => {
                        let elem = match c { Some(t) => t, None => Type::Unknown };
                        if !claim_agrees(claimed, &elem) {
                            Err(VerifyError::ElementTypeMismatch)
                        } else {
                            Ok(Type::array(elem, *len))
                        }
                    },
                }
            }
        },
        TypedIRValue::Range(start, end) => match verify_value(start, env) {
            Err(e) => Err(e),
            Ok(st) => match verify_value(end, env) {
                Err(e) => Err(e),
                Ok(et) => {
                    if !st.is_numeric() && !st.is_unknown() {
                        Err(VerifyError::RangeBound)
                    } else if !et.is_numeric() && !et.is_unknown() {
                        Err(VerifyError::RangeBound)
                    } else {
                        Ok(Type::list(st.common_supertype(&et)))
                    }
                },
            },
        },
        TypedIRValue::FieldAccess { object, field_type, .. } => match verify_value(object, env) {
            Err(e) => Err(e),
            Ok(_) => Ok(field_type.deep_clone()),
        },
        TypedIRValue::SomeValue(inner) => match verify_value(inner, env) {
            Err(e) => Err(e),
            Ok(t) => Ok(Type::option(t)),
        },
        TypedIRValue::OkValue { value, result_type } => match verify_value(value, env) {
            Err(e) => Err(e),
            Ok(_) => Ok(result_type.deep_clone()),
        },
        TypedIRValue::Error { value, result_type } => match verify_value(value, env) {
            Err(e) => Err(e),
            Ok(_) => Ok(result_type.deep_clone()),
        },
        TypedIRValue::NoneValue { option_type } => Ok(option_type.deep_clone()),
    }
}

/// The first argument that does not fit its parameter (see
/// `rules::first_misfit`).
pub fn find_misfit(args: &Vec<Type>, params: &Vec<(String, Type)>, generic_ok: bool) -> (r: Option<usize>)
    requires
        args@.len() == params@.len(),
    ensures
        match r {
            Some(i) => first_misfit(Seq::new(args@.len(), |j: int| args@[j]@), Seq::new(params@.len(), |j: int| params@[j].1@), generic_ok, 0) == Some(i as nat),
            None => first_misfit(Seq::new(args@.len(), |j: int| args@[j]@), Seq::new(params@.len(), |j: int| params@[j].1@), generic_ok, 0) is None,
        },
{
    let ghost a = Seq::new(args@.len(), |j: int| args@[j]@);
    let ghost p = Seq::new(params@.len(), |j: int| params@[j].1@);
    let mut i: usize = 0;
    while i < args.len()
        invariant
            0 <= i <= args@.len(),
            args@.len() == params@.len(),
            a == Seq::new(args@.len(), |j: int| args@[j]@),
            p == Seq::new(params@.len(), |j: int| params@[j].1@),
            first_misfit(a, p, generic_ok, 0) == first_misfit(a, p, generic_ok, i as nat),
        decreases args@.len() - i,
    {
        let at = &args[i];
        let pt = &params[i].1;
        let fits = at.is_unknown() || pt.is_unknown() || (generic_ok && pt.contains_type_var())
            || types_compatible_for_call(at, pt);
        assert(fits == arg_fits(a[i as int], p[i as int], generic_ok));
        if !fits {
            return Some(i);
        }
        i = i + 1;
    }
    None
}

/// A value-form call (see `rules::call_check`).
fn check_call(function: &String, ats: &Vec<Type>, ret: &Type, env: &VerifyEnv) -> (r: Result<Type, VerifyError>)
    ensures
        ty_result(r) == call_check(function@, Seq::new(ats@.len(), |j: int| ats@[j]@), ret@, env.model()),
{
    match find_sig(&env.function_sigs, function) {
        None => Err(VerifyError::UndefinedFunction(function.clone())),
        Some(k) => {
            let sig = &env.function_sigs[k].1;
            if ats.len() != sig.params.len() {
                return Err(VerifyError::ArgCount(function.clone()));
            }
            match find_misfit(ats, &sig.params, true) {
                Some(i) => Err(VerifyError::ArgTypeMismatch(function.clone(), i)),
                None => {
                    let generic = sig.return_type.contains_type_var();
                    if !generic && !ret.is_unknown() && !sig.return_type.is_unknown() && !ret.type_eq(&sig.return_type) {
                        Err(VerifyError::ReturnTypeMismatch(function.clone()))
                    } else if generic && !ret.is_unknown() {
                        Ok(ret.deep_clone())
                    } else {
                        Ok(sig.return_type.deep_clone())
                    }
                },
            }
        },
    }
}

} // verus!
