//! What the type check promises of ordering comparisons.

use vstd::prelude::*;
use crate::common::types::Ty;
use crate::ir::semantic_ir::values::SemanticBinOp;
use super::rules::{VErr, binop_check};

verus! {

/// An operand type an ordering comparison accepts on its own: a number.
pub open spec fn orderable(t: Ty) -> bool {
    t == Ty::Int || t == Ty::Float
}

/// An ordering comparison (`>`, `<`, `>=`, `<=`) is typed `Bool` exactly
/// when both operands are numbers or one of them is of unknown type;
/// otherwise the operands are incompatible. In particular two strings
/// cannot be ordered.
pub proof fn lemma_ordering_operands(op: SemanticBinOp, lt: Ty, rt: Ty)
    requires
        op == SemanticBinOp::Greater || op == SemanticBinOp::Less || op == SemanticBinOp::GreaterEqual
            || op == SemanticBinOp::LessEqual,
    ensures
        (orderable(lt) && orderable(rt)) || lt == Ty::Unknown || rt == Ty::Unknown ==> binop_check(op, lt, rt) == Ok::<Ty, VErr>(Ty::Bool),
        !((orderable(lt) && orderable(rt)) || lt == Ty::Unknown || rt == Ty::Unknown)
            ==> binop_check(op, lt, rt) == Err::<Ty, VErr>(VErr::IncompatibleOperands),
        binop_check(op, Ty::Str, Ty::Str) == Err::<Ty, VErr>(VErr::IncompatibleOperands),
{
}

/// Equality comparisons accept operands of any types and are `Bool`.
pub proof fn lemma_equality_is_bool(op: SemanticBinOp, lt: Ty, rt: Ty)
    requires
        op == SemanticBinOp::Equal || op == SemanticBinOp::NotEqual,
    ensures
        binop_check(op, lt, rt) == Ok::<Ty, VErr>(Ty::Bool),
{
}

/// Arithmetic on two numbers is `Int` when both are `Int` and `Float`
/// otherwise; `+` also joins two strings into a string; with an operand
/// of unknown type the result is unknown; any other operands are
/// incompatible.
pub proof fn lemma_arithmetic_operands(op: SemanticBinOp, lt: Ty, rt: Ty)
    requires
        op == SemanticBinOp::Add || op == SemanticBinOp::Subtract || op == SemanticBinOp::Multiply
            || op == SemanticBinOp::Divide,
    ensures
        lt == Ty::Int && rt == Ty::Int ==> binop_check(op, lt, rt) == Ok::<Ty, VErr>(Ty::Int),
        orderable(lt) && orderable(rt) && (lt == Ty::Float || rt == Ty::Float)
            ==> binop_check(op, lt, rt) == Ok::<Ty, VErr>(Ty::Float),
        lt == Ty::Str && rt == Ty::Str ==> binop_check(op, lt, rt) == (if op == SemanticBinOp::Add {
            Ok::<Ty, VErr>(Ty::Str)
        } else {
            Err::<Ty, VErr>(VErr::IncompatibleOperands)
        }),
        !(orderable(lt) && orderable(rt)) && !(op == SemanticBinOp::Add && lt == Ty::Str && rt == Ty::Str)
            && (lt == Ty::Unknown || rt == Ty::Unknown) ==> binop_check(op, lt, rt) == Ok::<Ty, VErr>(Ty::Unknown),
        !(orderable(lt) && orderable(rt)) && !(lt == Ty::Str && rt == Ty::Str) && lt != Ty::Unknown && rt != Ty::Unknown
            ==> binop_check(op, lt, rt) == Err::<Ty, VErr>(VErr::IncompatibleOperands),
{
}

} // verus!
