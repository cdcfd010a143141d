//! Checking instructions and terminators, which may extend the
//! environment.

use vstd::prelude::*;
use crate::common::types::{Type, Ty};
use crate::ir::semantic_ir::instructions::Instruction;
use crate::ir::semantic_ir::terminators::Terminator;
use crate::ir::semantic_ir::values::TypedIRValue;
use super::rules::{VErr, EnvModel, instr_check, term_check, send_check, receive_check, value_check, args_check,
    first_misfit, elem_of, known, with_var};
use super::value::{verify_value, types_compatible_for_call, find_misfit};
use super::{VerifyEnv, VerifyError, ty_result, find_type, find_flag, find_sig};

verus! {

/// The result of a step that extends the environment: `Ok` with the new
/// environment in `final`, or the defect.
pub open spec fn env_result(r: Result<(), VerifyError>, after: EnvModel) -> Result<EnvModel, VErr> {
    match r {
        Ok(_) => Ok(after),
        Err(e) => Err(e@),
    }
}

/// Checks `instr` in `env`, extending `env` with what it binds; see
/// `rules::instr_check`.
pub fn verify_instruction(instr: &Instruction, env: &mut VerifyEnv) -> (r: Result<(), VerifyError>)
    ensures
        env_result(r, final(env).model()) == instr_check(*instr, old(env).model()),
{
    match instr {
        Instruction::Nop => Ok(()),
        Instruction::RegionEnter { .. } => Ok(()),
        Instruction::RegionExit { .. } => Ok(()),
        Instruction::Declare { name, mutable, type_, value } => {
            let vt = match verify_value(value, env) {
                Err(e) => {
                    return Err(e);
                },
                Ok(t) => t,
            };
            let is_void = matches!(value, TypedIRValue::Void);
            if !is_void && !type_.is_unknown() && !vt.is_unknown() && !vt.can_coerce_to(type_) && !vt.type_eq(type_) {
                return Err(VerifyError::DeclareMismatch(name.clone()));
            }
            env.bind_var(name, type_.deep_clone(), *mutable);
            Ok(())
        },
        Instruction::Assign { target, value } => {
            let k = match find_type(&env.variables, target) {
                None => {
                    return Err(VerifyError::AssignUndefined(target.clone()));
                },
                Some(k) => k,
            };
            let mutable = match find_flag(&env.mutability, target) {
                None => false,
                Some(j) => env.mutability[j].1,
            };
            if !mutable {
                return Err(VerifyError::AssignImmutable(target.clone()));
            }
            let vt = match verify_value(value, env) {
                Err(e) => {
                    return Err(e);
                },
                Ok(t) => t,
            };
            let target_ty = &env.variables[k].1;
            let ok = match target_ty {
                Type::MutBorrow(inner) => types_compatible_for_call(&vt, inner),
                _ => types_compatible_for_call(&vt, target_ty),
            };
            if !ok {
                return Err(VerifyError::AssignMismatch(target.clone()));
            }
            Ok(())
        },
        Instruction::Print { value } => match verify_value(value, env) {
            Err(e) => Err(e),
            Ok(_) => Ok(()),
        },
        Instruction::ArrayAssign { array, index, value } => {
            let at = match verify_value(array, env) {
                Err(e) => {
                    return Err(e);
                },
                Ok(t) => t,
            };
            let it = match verify_value(index, env) {
                Err(e) => {
                    return Err(e);
                },
                Ok(t) => t,
            };
            if !it.is_unknown() && !matches!(it, Type::Int) {
                return Err(VerifyError::ArrayAssignIndex);
            }
            let el = match at {
                Type::List(x) => *x,
                Type::Array(x, _) => *x,
                Type::Unknown => Type::Unknown,
                _ => {
                    return Err(VerifyError::ArrayAssignTarget);
                },
            };
            let vt = match verify_value(value, env) {
                Err(e) => {
                    return Err(e);
                },
                Ok(t) => t,
            };
            if !el.is_unknown() && !vt.is_unknown() && !vt.can_coerce_to(&el) && !vt.type_eq(&el) {
                return Err(VerifyError::ArrayAssignValue);
            }
            Ok(())
        },
        Instruction::Call { func, args, result } => {
            let mut ats: Vec<Type> = Vec::new();
            let mut i: usize = 0;
            assert(args@.take(0) =~= Seq::<TypedIRValue>::empty());
            assert(Seq::new(0, |j: int| ats@[j]@) =~= Seq::<Ty>::empty());
            while i < args.len()
                invariant
                    0 <= i <= args@.len(),
                    ats@.len() == i,
                    env.model() == old(env).model(),
                    *instr == (Instruction::Call { func: *func, args: *args, result: *result }),
                    args_check(args@.take(i as int), env.model()) == Ok::<Seq<Ty>, VErr>(Seq::new(ats@.len(), |j: int| ats@[j]@)),
                decreases args@.len() - i,
            {
                assert(args@.take(i + 1).drop_last() =~= args@.take(i as int));
                assert(args@.take(i + 1).last() == args@[i as int]);
                match verify_value(&args[i], env) {
                    Err(e) => {
                        assert(args_check(args@.take(i + 1), env.model()) == Err::<Seq<Ty>, VErr>(e@));
                        proof { lemma_args_err(args@, env.model(), i as int); }
                        assert(args_check(args@, old(env).model()) == Err::<Seq<Ty>, VErr>(e@));
                        assert(instr_check(*instr, old(env).model()) == Err::<EnvModel, VErr>(e@));
                        return Err(e);
                    },
                    Ok(t) => {
                        let ghost prev = Seq::new(ats@.len(), |j: int| ats@[j]@);
                        ats.push(t);
                        assert(Seq::new(ats@.len(), |j: int| ats@[j]@) =~= prev.push(t@));
                    },
                }
                i = i + 1;
            }
            assert(args@.take(args@.len() as int) =~= args@);
            let k = match find_sig(&env.function_sigs, func) {
                None => {
                    return Err(VerifyError::UndefinedFunction(func.clone()));
                },
                Some(k) => k,
            };
            if ats.len() != env.function_sigs[k].1.params.len() {
                return Err(VerifyError::ArgCount(func.clone()));
            }
            match find_misfit(&ats, &env.function_sigs[k].1.params, false) {
                Some(i) => {
                    return Err(VerifyError::ArgTypeMismatch(func.clone(), i));
                },
                None => {},
            }
            match result {
                Some(name) => {
                    let rt = if env.function_sigs[k].1.return_type.contains_type_var() {
                        Type::Unknown
                    } else {
                        env.function_sigs[k].1.return_type.deep_clone()
                    };
                    env.bind_var(name, rt, false);
                    Ok(())
                },
                None => Ok(()),
            }
        },
        Instruction::IteratorInit { iterator, iterable } => {
            let t = match verify_value(iterable, env) {
                Err(e) => {
                    return Err(e);
                },
                Ok(t) => t,
            };
            let el = match t {
                Type::List(x) => *x,
                Type::Array(x, _) => *x,
                Type::Unknown => Type::Unknown,
                _ => {
                    return Err(VerifyError::IteratorNonList);
                },
            };
            env.bind_iter(iterator, el);
            Ok(())
        },
        Instruction::ChannelDecl { name, type_ } => {
            if matches!(type_, Type::Channel(_)) || type_.is_unknown() {
                env.bind_var(name, type_.deep_clone(), false);
                Ok(())
            } else {
                Err(VerifyError::ChannelDeclType(name.clone()))
            }
        },
        Instruction::Send { channel, value } => verify_send(channel, value, env),
        Instruction::ChannelSend { channel, value } => verify_send(channel, value, env),
        Instruction::Receive { channel, target } => verify_receive(channel, target, env),
        Instruction::ChannelReceive { channel, target } => verify_receive(channel, target, env),
        Instruction::Allocate { target, size, type_ } => {
            let st = match verify_value(size, env) {
                Err(e) => {
                    return Err(e);
                },
                Ok(t) => t,
            };
            if !st.is_unknown() && !matches!(st, Type::Int) {
                return Err(VerifyError::AllocateSize);
            }
            env.bind_var(target, type_.deep_clone(), true);
            Ok(())
        },
        Instruction::Free { ptr } => {
            let pt = match verify_value(ptr, env) {
                Err(e) => {
                    return Err(e);
                },
                Ok(t) => t,
            };
            if matches!(pt, Type::Pointer(_) | Type::Ptr | Type::Unknown) {
                Ok(())
            } else {
                Err(VerifyError::FreeNonPointer)
            }
        },
    }
}

proof fn lemma_args_err(es: Seq<TypedIRValue>, env: EnvModel, i: int)
    requires
        0 <= i < es.len(),
        args_check(es.take(i + 1), env) is Err,
    ensures
        args_check(es, env) == args_check(es.take(i + 1), env),
    decreases es.len(),
{
    if es.len() > i + 1 {
        let init = es.drop_last();
        assert(init.take(i + 1) =~= es.take(i + 1));
        lemma_args_err(init, env, i);
    } else {
        assert(es.take(i + 1) =~= es);
    }
}

fn verify_send(channel: &String, value: &TypedIRValue, env: &mut VerifyEnv) -> (r: Result<(), VerifyError>)
    ensures
        env_result(r, final(env).model()) == send_check(channel@, *value, old(env).model()),
{
    let k = match find_type(&env.variables, channel) {
        None => {
            return Err(VerifyError::SendUndeclared(channel.clone()));
        },
        Some(k) => k,
    };
    if !(matches!(env.variables[k].1, Type::Channel(_)) || env.variables[k].1.is_unknown()) {
        return Err(VerifyError::SendNonChannel(channel.clone()));
    }
    match verify_value(value, env) {
        Err(e) => Err(e),
        Ok(_) => Ok(()),
    }
}

fn verify_receive(channel: &String, target: &String, env: &mut VerifyEnv) -> (r: Result<(), VerifyError>)
    ensures
        env_result(r, final(env).model()) == receive_check(channel@, target@, old(env).model()),
{
    let k = match find_type(&env.variables, channel) {
        None => {
            return Err(VerifyError::ReceiveUndeclared(channel.clone()));
        },
        Some(k) => k,
    };
    let el = match &env.variables[k].1 {
        Type::Channel(t) => t.deep_clone(),
        Type::Unknown => Type::Unknown,
        _ => {
            return Err(VerifyError::ReceiveNonChannel(channel.clone()));
        },
    };
    env.bind_var(target, el, true);
    Ok(())
}

/// Checks terminator `term` of a function returning `ret` in `env`; see
/// `rules::term_check`.
pub fn verify_terminator(ret: &Type, term: &Terminator, env: &mut VerifyEnv) -> (r: Result<(), VerifyError>)
    ensures
        env_result(r, final(env).model()) == term_check(ret@, *term, old(env).model()),
{
    match term {
        Terminator::Return { value, type_ } => {
            match value {
                Some(v) => {
                    let at = match verify_value(v, env) {
                        Err(e) => {
                            return Err(e);
                        },
                        Ok(t) => t,
                    };
                    if !at.is_unknown() && !type_.is_unknown() && !at.type_eq(type_) && !at.can_coerce_to(type_) {
                        return Err(VerifyError::ReturnValueMismatch);
                    }
                },
                None => {},
            }
            if !type_.is_unknown() && !ret.is_unknown() && !type_.type_eq(ret) {
                return Err(VerifyError::DeclaredReturnMismatch);
            }
            Ok(())
        },
        Terminator::Branch { condition, .. } => match verify_value(condition, env) {
            Err(e) => Err(e),
            Ok(ct) => if !ct.is_unknown() && !matches!(ct, Type::Bool) { Err(VerifyError::BranchCondition) } else { Ok(()) },
        },
        Terminator::Switch { value, .. } => match verify_value(value, env) {
            Err(e) => Err(e),
            Ok(vt) => if matches!(vt, Type::Void) { Err(VerifyError::SwitchVoid) } else { Ok(()) },
        },
        Terminator::IteratorNext { iterator, target, .. } => {
            let el = match find_type(&env.iterator_elem_types, iterator) {
                Some(k) => env.iterator_elem_types[k].1.deep_clone(),
                None => Type::Unknown,
            };
            env.bind_var(target, el, false);
            Ok(())
        },
        _ => Ok(()),
    }
}

} // verus!
