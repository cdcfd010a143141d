use vstd::prelude::*;
use crate::common::types::{Type, Ty};
use crate::common::text::dec;
use crate::common::debug_text::{bool_text, int_text, push_bool, push_i64, push_quoted, push_type, push_u64, push_usize, quoted, ty_debug};

verus! {

/// Binary operators of the semantic IR.
#[derive(Debug, Clone, Copy, PartialEq, Eq, Structural)]
pub enum SemanticBinOp {
    Add,
    Subtract,
    Multiply,
    Divide,
    Greater,
    Less,
    GreaterEqual,
    LessEqual,
    Equal,
    NotEqual,
}

/// A value of the semantic IR, carrying the type it claims to have.
///
/// A floating-point constant is held by its IEEE-754 bit pattern.
#[derive(Debug)]
pub enum TypedIRValue {
    Int(i64),
    Float(u64),
    String(String),
    Bool(bool),
    Void,
    PtrLiteral(usize),
    NullPtr,
    List(Vec<TypedIRValue>, Type),
    SomeValue(Box<TypedIRValue>),
    NoneValue { option_type: Type },
    OkValue { value: Box<TypedIRValue>, result_type: Type },
    Error { value: Box<TypedIRValue>, result_type: Type },
    Variable(String, Type),
    Cast { value: Box<TypedIRValue>, target_type: Type },
    BinaryOp { op: SemanticBinOp, left: Box<TypedIRValue>, right: Box<TypedIRValue>, result_type: Type },
    Call { function: String, args: Vec<TypedIRValue>, return_type: Type },
    ArrayAccess { array: Box<TypedIRValue>, index: Box<TypedIRValue>, element_type: Type },
    Borrow { expr: Box<TypedIRValue>, target_type: Type },
    MutBorrow { expr: Box<TypedIRValue>, target_type: Type },
    Deref { expr: Box<TypedIRValue>, target_type: Type },
    AddrOf { expr: Box<TypedIRValue>, target_type: Type },
    /// Array literal: elements, element type, length.
    Array(Vec<TypedIRValue>, Type, usize),
    /// Range: start, end.
    Range(Box<TypedIRValue>, Box<TypedIRValue>),
    /// Field access: object, field, field type.
    FieldAccess { object: Box<TypedIRValue>, field: String, field_type: Type },
}

/// The type a value claims for itself.
pub open spec fn claimed_type(v: TypedIRValue) -> Ty
    decreases v,
{
    match v {
        TypedIRValue::Int(_) => Ty::Int,
        TypedIRValue::Float(_) => Ty::Float,
        TypedIRValue::String(_) => Ty::Str,
        TypedIRValue::Bool(_) => Ty::Bool,
        TypedIRValue::Void => Ty::Void,
        TypedIRValue::PtrLiteral(_) => Ty::Ptr,
        TypedIRValue::NullPtr => Ty::Ptr,
        TypedIRValue::List(_, t) => Ty::List(Box::new(t@)),
        TypedIRValue::SomeValue(inner) => Ty::Opt(Box::new(claimed_type(*inner))),
        TypedIRValue::NoneValue { option_type } => option_type@,
        TypedIRValue::OkValue { result_type, .. } => result_type@,
        TypedIRValue::Error { result_type, .. } => result_type@,
        TypedIRValue::Variable(_, t) => t@,
        TypedIRValue::Cast { target_type, .. } => target_type@,
        TypedIRValue::BinaryOp { result_type, .. } => result_type@,
        TypedIRValue::Call { return_type, .. } => return_type@,
        TypedIRValue::ArrayAccess { element_type, .. } => element_type@,
        TypedIRValue::Borrow { target_type, .. } => target_type@,
        TypedIRValue::MutBorrow { target_type, .. } => target_type@,
        TypedIRValue::Deref { target_type, .. } => target_type@,
        TypedIRValue::AddrOf { target_type, .. } => target_type@,
        _ => Ty::Unknown,
    }
}

impl TypedIRValue {
    /// The type the value claims for itself.
    pub fn type_of(&self) -> (r: Type)
        ensures
            r@ == claimed_type(*self),
        decreases self,
    {
        match self {
            TypedIRValue::Int(_) => Type::Int,
            TypedIRValue::Float(_) => Type::Float,
            TypedIRValue::String(_) => Type::String,
            TypedIRValue::Bool(_) => Type::Bool,
            TypedIRValue::Void => Type::Void,
            TypedIRValue::PtrLiteral(_) => Type::Ptr,
            TypedIRValue::NullPtr => Type::Ptr,
            TypedIRValue::List(_, t) => Type::list(t.deep_clone()),
            TypedIRValue::SomeValue(v) => Type::option(v.type_of()),
            TypedIRValue::NoneValue { option_type } => option_type.deep_clone(),
            TypedIRValue::OkValue { result_type, .. } => result_type.deep_clone(),
            TypedIRValue::Error { result_type, .. } => result_type.deep_clone(),
            TypedIRValue::Variable(_, t) => t.deep_clone(),
            TypedIRValue::Cast { target_type, .. } => target_type.deep_clone(),
            TypedIRValue::BinaryOp { result_type, .. } => result_type.deep_clone(),
            TypedIRValue::Call { return_type, .. } => return_type.deep_clone(),
            TypedIRValue::ArrayAccess { element_type, .. } => element_type.deep_clone(),
            TypedIRValue::Borrow { target_type, .. } => target_type.deep_clone(),
            TypedIRValue::MutBorrow { target_type, .. } => target_type.deep_clone(),
            TypedIRValue::Deref { target_type, .. } => target_type.deep_clone(),
            TypedIRValue::AddrOf { target_type, .. } => target_type.deep_clone(),
            _ => Type::Unknown,
        }
    }
}

// ─── Text ───────────────────────────────────────────────────────────

pub open spec fn sem_binop_debug(op: SemanticBinOp) -> Seq<char> {
    match op {
        SemanticBinOp::Add => "Add"@,
        SemanticBinOp::Subtract => "Subtract"@,
        SemanticBinOp::Multiply => "Multiply"@,
        SemanticBinOp::Divide => "Divide"@,
        SemanticBinOp::Greater => "Greater"@,
        SemanticBinOp::Less => "Less"@,
        SemanticBinOp::GreaterEqual => "GreaterEqual"@,
        SemanticBinOp::LessEqual => "LessEqual"@,
        SemanticBinOp::Equal => "Equal"@,
        SemanticBinOp::NotEqual => "NotEqual"@,
    }
}

/// The text of a value, in the shape of its derived `Debug`; a float
/// shows the bits it is held in.
pub open spec fn typed_value_debug(v: TypedIRValue) -> Seq<char>
    decreases v,
{
    match v {
        TypedIRValue::Int(x) => "Int("@ + int_text(x as int) + ")"@,
        TypedIRValue::Float(x) => "Float("@ + dec(x as nat) + ")"@,
        TypedIRValue::String(x) => "String("@ + quoted(x@) + ")"@,
        TypedIRValue::Bool(x) => "Bool("@ + bool_text(x) + ")"@,
        TypedIRValue::Void => "Void"@,
        TypedIRValue::PtrLiteral(x) => "PtrLiteral("@ + dec(x as nat) + ")"@,
        TypedIRValue::NullPtr => "NullPtr"@,
        TypedIRValue::List(xs, t) => "List("@ + "["@ + typed_values_debug(xs@) + "]"@ + ", "@ + ty_debug(t@) + ")"@,
        TypedIRValue::SomeValue(x) => "SomeValue("@ + typed_value_debug(*x) + ")"@,
        TypedIRValue::NoneValue { option_type } => "NoneValue { option_type: "@ + ty_debug(option_type@) + " }"@,
        TypedIRValue::OkValue { value, result_type } => "OkValue { value: "@ + typed_value_debug(*value) + ", result_type: "@ + ty_debug(result_type@) + " }"@,
        TypedIRValue::Error { value, result_type } => "Error { value: "@ + typed_value_debug(*value) + ", result_type: "@ + ty_debug(result_type@) + " }"@,
        TypedIRValue::Variable(n, t) => "Variable("@ + quoted(n@) + ", "@ + ty_debug(t@) + ")"@,
        TypedIRValue::Cast { value, target_type } => "Cast { value: "@ + typed_value_debug(*value) + ", target_type: "@ + ty_debug(target_type@) + " }"@,
        TypedIRValue::BinaryOp { op, left, right, result_type } => "BinaryOp { op: "@ + sem_binop_debug(op) + ", left: "@ + typed_value_debug(*left) + ", right: "@ + typed_value_debug(*right) + ", result_type: "@ + ty_debug(result_type@) + " }"@,
        TypedIRValue::Call { function, args, return_type } => "Call { function: "@ + quoted(function@) + ", args: "@ + "["@ + typed_values_debug(args@) + "]"@ + ", return_type: "@ + ty_debug(return_type@) + " }"@,
        TypedIRValue::ArrayAccess { array, index, element_type } => "ArrayAccess { array: "@ + typed_value_debug(*array) + ", index: "@ + typed_value_debug(*index) + ", element_type: "@ + ty_debug(element_type@) + " }"@,
        TypedIRValue::Borrow { expr, target_type } => "Borrow { expr: "@ + typed_value_debug(*expr) + ", target_type: "@ + ty_debug(target_type@) + " }"@,
        TypedIRValue::MutBorrow { expr, target_type } => "MutBorrow { expr: "@ + typed_value_debug(*expr) + ", target_type: "@ + ty_debug(target_type@) + " }"@,
        TypedIRValue::Deref { expr, target_type } => "Deref { expr: "@ + typed_value_debug(*expr) + ", target_type: "@ + ty_debug(target_type@) + " }"@,
        TypedIRValue::AddrOf { expr, target_type } => "AddrOf { expr: "@ + typed_value_debug(*expr) + ", target_type: "@ + ty_debug(target_type@) + " }"@,
        TypedIRValue::Array(xs, t, n) => "Array("@ + "["@ + typed_values_debug(xs@) + "]"@ + ", "@ + ty_debug(t@) + ", "@ + dec(n as nat) + ")"@,
        TypedIRValue::Range(a, b) => "Range("@ + typed_value_debug(*a) + ", "@ + typed_value_debug(*b) + ")"@,
        TypedIRValue::FieldAccess { object, field, field_type } => "FieldAccess { object: "@ + typed_value_debug(*object) + ", field: "@ + quoted(field@) + ", field_type: "@ + ty_debug(field_type@) + " }"@,
    }
}

/// The texts of `vs`, separated by `, `.
pub open spec fn typed_values_debug(vs: Seq<TypedIRValue>) -> Seq<char>
    decreases vs,
{
    if vs.len() == 0 {
        Seq::empty()
    } else {
        typed_values_debug(vs.drop_last()) + (if vs.len() > 1 { ", "@ } else { Seq::empty() })
            + typed_value_debug(vs.last())
    }
}

fn push_sem_binop(out: &mut String, op: SemanticBinOp)
    ensures
        final(out)@ == old(out)@ + sem_binop_debug(op),
{
    match op {
        SemanticBinOp::Add => out.append("Add"),
        SemanticBinOp::Subtract => out.append("Subtract"),
        SemanticBinOp::Multiply => out.append("Multiply"),
        SemanticBinOp::Divide => out.append("Divide"),
        SemanticBinOp::Greater => out.append("Greater"),
        SemanticBinOp::Less => out.append("Less"),
        SemanticBinOp::GreaterEqual => out.append("GreaterEqual"),
        SemanticBinOp::LessEqual => out.append("LessEqual"),
        SemanticBinOp::Equal => out.append("Equal"),
        SemanticBinOp::NotEqual => out.append("NotEqual"),
    }
}

#[verifier::rlimit(100)]
#[verifier::spinoff_prover]
fn push_typed_value(out: &mut String, v: &TypedIRValue)
    ensures
        final(out)@ == old(out)@ + typed_value_debug(*v),
    decreases v, 2nat,
{
    match v {
        TypedIRValue::Int(x) => {
            out.append("Int(");
            push_i64(out, *x);
            out.append(")");
        },
        TypedIRValue::Float(x) => {
            out.append("Float(");
            push_u64(out, *x);
            out.append(")");
        },
        TypedIRValue::String(x) => {
            out.append("String(");
            push_quoted(out, x.as_str());
            out.append(")");
        },
        TypedIRValue::Bool(x) => {
            out.append("Bool(");
            push_bool(out, *x);
            out.append(")");
        },
        TypedIRValue::Void => out.append("Void"),
        TypedIRValue::PtrLiteral(x) => {
            out.append("PtrLiteral(");
            push_usize(out, *x);
            out.append(")");
        },
        TypedIRValue::NullPtr => out.append("NullPtr"),
        TypedIRValue::List(xs, t) => {
            out.append("List(");
            out.append("[");
            push_typed_values(out, xs);
            out.append("]");
            out.append(", ");
            push_type(out, t);
            out.append(")");
        },
        _ => push_typed_value_more(out, v),
    }
}

#[verifier::rlimit(100)]
#[verifier::spinoff_prover]
fn push_typed_value_more(out: &mut String, v: &TypedIRValue)
    requires
        !(*v is Int) && !(*v is Float) && !(*v is String) && !(*v is Bool) && !(*v is Void) && !(*v is PtrLiteral) && !(*v is NullPtr) && !(*v is List),
    ensures
        final(out)@ == old(out)@ + typed_value_debug(*v),
    decreases v, 1nat,
{
    match v {
        TypedIRValue::SomeValue(x) => {
            out.append("SomeValue(");
            push_typed_value(out, x);
            out.append(")");
        },
        TypedIRValue::NoneValue { option_type } => {
            out.append("NoneValue { option_type: ");
            push_type(out, option_type);
            out.append(" }");
        },
        TypedIRValue::OkValue { value, result_type } => {
            out.append("OkValue { value: ");
            push_typed_value(out, value);
            out.append(", result_type: ");
            push_type(out, result_type);
            out.append(" }");
        },
        TypedIRValue::Error { value, result_type } => {
            out.append("Error { value: ");
            push_typed_value(out, value);
            out.append(", result_type: ");
            push_type(out, result_type);
            out.append(" }");
        },
        TypedIRValue::Variable(n, t) => {
            out.append("Variable(");
            push_quoted(out, n.as_str());
            out.append(", ");
            push_type(out, t);
            out.append(")");
        },
        TypedIRValue::Cast { value, target_type } => {
            out.append("Cast { value: ");
            push_typed_value(out, value);
            out.append(", target_type: ");
            push_type(out, target_type);
            out.append(" }");
        },
        TypedIRValue::BinaryOp { op, left, right, result_type } => {
            out.append("BinaryOp { op: ");
            push_sem_binop(out, *op);
            out.append(", left: ");
            push_typed_value(out, left);
            out.append(", right: ");
            push_typed_value(out, right);
            out.append(", result_type: ");
            push_type(out, result_type);
            out.append(" }");
        },
        TypedIRValue::Call { function, args, return_type } => {
            out.append("Call { function: ");
            push_quoted(out, function.as_str());
            out.append(", args: ");
            out.append("[");
            push_typed_values(out, args);
            out.append("]");
            out.append(", return_type: ");
            push_type(out, return_type);
            out.append(" }");
        },
        _ => push_typed_value_rest(out, v),
    }
}

#[verifier::rlimit(100)]
#[verifier::spinoff_prover]
fn push_typed_value_rest(out: &mut String, v: &TypedIRValue)
    requires
        *v is ArrayAccess || *v is Borrow || *v is MutBorrow || *v is Deref || *v is AddrOf || *v is Array || *v is Range || *v is FieldAccess,
    ensures
        final(out)@ == old(out)@ + typed_value_debug(*v),
    decreases v, 0nat,
{
    match v {
        TypedIRValue::ArrayAccess { array, index, element_type } => {
            out.append("ArrayAccess { array: ");
            push_typed_value(out, array);
            out.append(", index: ");
            push_typed_value(out, index);
            out.append(", element_type: ");
            push_type(out, element_type);
            out.append(" }");
        },
        TypedIRValue::Borrow { expr, target_type } => {
            out.append("Borrow { expr: ");
            push_typed_value(out, expr);
            out.append(", target_type: ");
            push_type(out, target_type);
            out.append(" }");
        },
        TypedIRValue::MutBorrow { expr, target_type } => {
            out.append("MutBorrow { expr: ");
            push_typed_value(out, expr);
            out.append(", target_type: ");
            push_type(out, target_type);
            out.append(" }");
        },
        TypedIRValue::Deref { expr, target_type } => {
            out.append("Deref { expr: ");
            push_typed_value(out, expr);
            out.append(", target_type: ");
            push_type(out, target_type);
            out.append(" }");
        },
        TypedIRValue::AddrOf { expr, target_type } => {
            out.append("AddrOf { expr: ");
            push_typed_value(out, expr);
            out.append(", target_type: ");
            push_type(out, target_type);
            out.append(" }");
        },
        TypedIRValue::Array(xs, t, n) => {
            out.append("Array(");
            out.append("[");
            push_typed_values(out, xs);
            out.append("]");
            out.append(", ");
            push_type(out, t);
            out.append(", ");
            push_usize(out, *n);
            out.append(")");
        },
        TypedIRValue::Range(a, b) => {
            out.append("Range(");
            push_typed_value(out, a);
            out.append(", ");
            push_typed_value(out, b);
            out.append(")");
        },
        TypedIRValue::FieldAccess { object, field, field_type } => {
            out.append("FieldAccess { object: ");
            push_typed_value(out, object);
            out.append(", field: ");
            push_quoted(out, field.as_str());
            out.append(", field_type: ");
            push_type(out, field_type);
            out.append(" }");
        },
        _ => {},
    }
}

fn push_typed_values(out: &mut String, vs: &Vec<TypedIRValue>)
    ensures
        final(out)@ == old(out)@ + typed_values_debug(vs@),
    decreases vs, 3nat,
{
    let ghost start = out@;
    let mut i: usize = 0;
    while i < vs.len()
        invariant
            0 <= i <= vs@.len(),
            out@ == start + typed_values_debug(vs@.take(i as int)),
        decreases vs@.len() - i,
    {
        assert(decreases_to!(vs => vs@[i as int]));
        proof {
            assert(vs@.take(i + 1).drop_last() =~= vs@.take(i as int));
        }
        if i > 0 {
            out.append(", ");
        }
        push_typed_value(out, &vs[i]);
        i = i + 1;
    }
    proof {
        assert(vs@.take(vs@.len() as int) =~= vs@);
    }
}

/// The text of a value.
pub fn value_text(v: &TypedIRValue) -> (r: String)
    ensures
        r@ == typed_value_debug(*v),
{
    let mut out = String::new();
    push_typed_value(&mut out, v);
    out
}

} // verus!
