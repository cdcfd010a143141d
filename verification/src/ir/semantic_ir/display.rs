//! Rendering a semantic-IR program as text, source-shaped where it can
//! be: `var x: Int := 5` for a declaration, `x := 5` for an assignment,
//! `&x` for a shared borrow. The linear view shows every instruction and
//! terminator; the control-flow view shows each block's successors; the
//! signatures view shows function headers only.

use vstd::prelude::*;
use super::values::{SemanticBinOp, TypedIRValue};
use super::instructions::Instruction;
use super::terminators::{Terminator, succs};
use super::patterns::SemanticPattern;
use super::program::{SemanticBlock, SemanticFunction, SemanticProgram};
use crate::common::chars::chars_of;
use crate::common::text::{dec, digit_char, digit_str};
use crate::common::types::Type;
use crate::common::debug_text::{bool_text, int_text, push_bool, push_i64, push_quoted, push_type, push_u64, push_usize, quoted, ty_debug};

verus! {

/// Which view of the program to render.
#[derive(Debug, Clone, Copy, PartialEq, Eq, Structural)]
pub enum FormatMode {
    /// Full instructions and terminators; the default.
    Linear,
    /// Block ids and their successors, no instructions.
    Cfg,
    /// Function signatures only.
    Signatures,
}

/// Options controlling how a program is rendered.
#[derive(Debug, Clone, Copy)]
pub struct FormatOptions {
    pub mode: FormatMode,
}

impl Default for FormatOptions {
    fn default() -> (r: FormatOptions)
        ensures
            r.mode == FormatMode::Linear,
    {
        FormatOptions { mode: FormatMode::Linear }
    }
}

// ─── Numbers ────────────────────────────────────────────────────────

pub open spec fn hex_digit(d: nat) -> char {
    if d < 10 { digit_char(d) }
    else if d == 10 { 'a' }
    else if d == 11 { 'b' }
    else if d == 12 { 'c' }
    else if d == 13 { 'd' }
    else if d == 14 { 'e' }
    else { 'f' }
}

/// The lowercase hexadecimal digits of `n`, as `{:x}` writes them.
pub open spec fn hex(n: nat) -> Seq<char>
    decreases n,
{
    if n < 16 { seq![hex_digit(n)] } else { hex(n / 16) + seq![hex_digit(n % 16)] }
}

fn hex_digit_str(d: usize) -> (r: &'static str)
    requires
        d < 16,
    ensures
        r@ == seq![hex_digit(d as nat)],
{
    if d < 10 {
        digit_str(d)
    } else {
        proof {
            reveal_strlit("a");
            reveal_strlit("b");
            reveal_strlit("c");
            reveal_strlit("d");
            reveal_strlit("e");
            reveal_strlit("f");
        }
        if d == 10 { "a" } else if d == 11 { "b" } else if d == 12 { "c" } else if d == 13 { "d" } else if d == 14 { "e" } else { "f" }
    }
}

pub(crate) fn push_hex(out: &mut String, n: usize)
    ensures
        final(out)@ == old(out)@ + hex(n as nat),
    decreases n,
{
    if n < 16 {
        out.append(hex_digit_str(n));
    } else {
        push_hex(out, n / 16);
        out.append(hex_digit_str(n % 16));
    }
}

// ─── Values ─────────────────────────────────────────────────────────

pub open spec fn binop_text(op: SemanticBinOp) -> Seq<char> {
    match op {
        SemanticBinOp::Add => "+"@,
        SemanticBinOp::Subtract => "-"@,
        SemanticBinOp::Multiply => "*"@,
        SemanticBinOp::Divide => "/"@,
        SemanticBinOp::Greater => ">"@,
        SemanticBinOp::Less => "<"@,
        SemanticBinOp::GreaterEqual => ">="@,
        SemanticBinOp::LessEqual => "<="@,
        SemanticBinOp::Equal => "=="@,
        SemanticBinOp::NotEqual => "!="@,
    }
}

/// A type as the rendering shows it.
pub open spec fn type_src(t: Type) -> Seq<char> {
    ty_debug(t@)
}

/// A value, source-shaped: literals as written (a string quoted, a float
/// as the bits it is held in, a pointer in hexadecimal), a variable by
/// its name, operations in parentheses, calls and lists with their items
/// separated by `, `.
pub open spec fn value_src(v: TypedIRValue) -> Seq<char>
    decreases v,
{
    match v {
        TypedIRValue::Int(i) => int_text(i as int),
        TypedIRValue::Float(b) => "Float("@ + dec(b as nat) + ")"@,
        TypedIRValue::String(t) => quoted(t@),
        TypedIRValue::Bool(b) => bool_text(b),
        TypedIRValue::Void => "void"@,
        TypedIRValue::NullPtr => "null"@,
        TypedIRValue::PtrLiteral(p) => "0x"@ + hex(p as nat),
        TypedIRValue::Variable(n, _) => n@,
        TypedIRValue::Cast { value, target_type } => "("@ + value_src(*value) + " as "@ + type_src(target_type) + ")"@,
        TypedIRValue::BinaryOp { op, left, right, .. } => "("@ + value_src(*left) + " "@ + binop_text(op) + " "@
            + value_src(*right) + ")"@,
        TypedIRValue::Call { function, args, .. } => function@ + "("@ + values_src(args@) + ")"@,
        TypedIRValue::List(items, _) => "["@ + values_src(items@) + "]"@,
        TypedIRValue::Array(items, _, _) => "["@ + values_src(items@) + "]"@,
        TypedIRValue::SomeValue(inner) => "Some("@ + value_src(*inner) + ")"@,
        TypedIRValue::NoneValue { .. } => "None"@,
        TypedIRValue::OkValue { value, .. } => "Ok("@ + value_src(*value) + ")"@,
        TypedIRValue::Error { value, .. } => "Error("@ + value_src(*value) + ")"@,
        TypedIRValue::ArrayAccess { array, index, .. } => value_src(*array) + "["@ + value_src(*index) + "]"@,
        TypedIRValue::Borrow { expr, .. } => "&"@ + value_src(*expr),
        TypedIRValue::MutBorrow { expr, .. } => "&mut "@ + value_src(*expr),
        TypedIRValue::Deref { expr, .. } => "*"@ + value_src(*expr),
        TypedIRValue::AddrOf { expr, .. } => "addr_of("@ + value_src(*expr) + ")"@,
        TypedIRValue::Range(a, b) => value_src(*a) + ".."@ + value_src(*b),
        TypedIRValue::FieldAccess { object, field, .. } => value_src(*object) + "."@ + field@,
    }
}

pub open spec fn values_src(vs: Seq<TypedIRValue>) -> Seq<char>
    decreases vs,
{
    if vs.len() == 0 {
        Seq::empty()
    } else {
        values_src(vs.drop_last()) + (if vs.len() > 1 { ", "@ } else { Seq::empty() }) + value_src(vs.last())
    }
}

fn push_binop(out: &mut String, op: SemanticBinOp)
    ensures
        final(out)@ == old(out)@ + binop_text(op),
{
    match op {
        SemanticBinOp::Add => out.append("+"),
        SemanticBinOp::Subtract => out.append("-"),
        SemanticBinOp::Multiply => out.append("*"),
        SemanticBinOp::Divide => out.append("/"),
        SemanticBinOp::Greater => out.append(">"),
        SemanticBinOp::Less => out.append("<"),
        SemanticBinOp::GreaterEqual => out.append(">="),
        SemanticBinOp::LessEqual => out.append("<="),
        SemanticBinOp::Equal => out.append("=="),
        SemanticBinOp::NotEqual => out.append("!="),
    }
}

#[verifier::rlimit(100)]
#[verifier::spinoff_prover]
fn push_value(out: &mut String, v: &TypedIRValue)
    ensures
        final(out)@ == old(out)@ + value_src(*v),
    decreases v, 1nat,
{
    match v {
        TypedIRValue::Int(i) => push_i64(out, *i),
        TypedIRValue::Float(b) => {
            out.append("Float(");
            push_u64(out, *b);
            out.append(")");
        },
        TypedIRValue::String(t) => push_quoted(out, t.as_str()),
        TypedIRValue::Bool(b) => push_bool(out, *b),
        TypedIRValue::Void => out.append("void"),
        TypedIRValue::NullPtr => out.append("null"),
        TypedIRValue::PtrLiteral(p) => {
            out.append("0x");
            push_hex(out, *p);
        },
        TypedIRValue::Variable(n, _) => out.append(n.as_str()),
        TypedIRValue::Cast { value, target_type } => {
            out.append("(");
            push_value(out, value);
            out.append(" as ");
            push_type(out, target_type);
            out.append(")");
        },
        TypedIRValue::BinaryOp { op, left, right, .. } => {
            out.append("(");
            push_value(out, left);
            out.append(" ");
            push_binop(out, *op);
            out.append(" ");
            push_value(out, right);
            out.append(")");
        },
        TypedIRValue::Call { function, args, .. } => {
            out.append(function.as_str());
            out.append("(");
            push_values(out, args);
            out.append(")");
        },
        TypedIRValue::List(items, _) => {
            out.append("[");
            push_values(out, items);
            out.append("]");
        },
        _ => push_value_more(out, v),
    }
}

#[verifier::rlimit(100)]
#[verifier::spinoff_prover]
fn push_value_more(out: &mut String, v: &TypedIRValue)
    requires
        !(*v is Int) && !(*v is Float) && !(*v is String) && !(*v is Bool) && !(*v is Void) && !(*v is NullPtr)
            && !(*v is PtrLiteral) && !(*v is Variable) && !(*v is Cast) && !(*v is BinaryOp) && !(*v is Call)
            && !(*v is List),
    ensures
        final(out)@ == old(out)@ + value_src(*v),
    decreases v, 0nat,
{
    match v {
        TypedIRValue::Array(items, _, _) => {
            out.append("[");
            push_values(out, items);
            out.append("]");
        },
        TypedIRValue::SomeValue(inner) => {
            out.append("Some(");
            push_value(out, inner);
            out.append(")");
        },
        TypedIRValue::NoneValue { .. } => out.append("None"),
        TypedIRValue::OkValue { value, .. } => {
            out.append("Ok(");
            push_value(out, value);
            out.append(")");
        },
        TypedIRValue::Error { value, .. } => {
            out.append("Error(");
            push_value(out, value);
            out.append(")");
        },
        TypedIRValue::ArrayAccess { array, index, .. } => {
            push_value(out, array);
            out.append("[");
            push_value(out, index);
            out.append("]");
        },
        TypedIRValue::Borrow { expr, .. } => {
            out.append("&");
            push_value(out, expr);
        },
        TypedIRValue::MutBorrow { expr, .. } => {
            out.append("&mut ");
            push_value(out, expr);
        },
        TypedIRValue::Deref { expr, .. } => {
            out.append("*");
            push_value(out, expr);
        },
        TypedIRValue::AddrOf { expr, .. } => {
            out.append("addr_of(");
            push_value(out, expr);
            out.append(")");
        },
        TypedIRValue::Range(a, b) => {
            push_value(out, a);
            out.append("..");
            push_value(out, b);
        },
        TypedIRValue::FieldAccess { object, field, .. } => {
            push_value(out, object);
            out.append(".");
            out.append(field.as_str());
        },
        _ => {},
    }
}

fn push_values(out: &mut String, vs: &Vec<TypedIRValue>)
    ensures
        final(out)@ == old(out)@ + values_src(vs@),
    decreases vs, 2nat,
{
    let ghost start = out@;
    let mut i: usize = 0;
    while i < vs.len()
        invariant
            0 <= i <= vs@.len(),
            out@ == start + values_src(vs@.take(i as int)),
        decreases vs@.len() - i,
    {
        assert(decreases_to!(vs => vs@[i as int]));
        proof {
            assert(vs@.take(i + 1).drop_last() =~= vs@.take(i as int));
        }
        if i > 0 {
            out.append(", ");
        }
        push_value(out, &vs[i]);
        i = i + 1;
    }
    proof {
        assert(vs@.take(vs@.len() as int) =~= vs@);
    }
}

// ─── Instructions, patterns, terminators ────────────────────────────

/// An instruction, source-shaped.
pub open spec fn instruction_src(i: Instruction) -> Seq<char> {
    match i {
        Instruction::Nop => "nop"@,
        Instruction::Declare { name, mutable, type_, value } => (if mutable { "var"@ } else { "val"@ }) + " "@
            + name@ + ": "@ + type_src(type_) + " := "@ + value_src(value),
        Instruction::Assign { target, value } => target@ + " := "@ + value_src(value),
        Instruction::ArrayAssign { array, index, value } => value_src(*array) + "["@ + value_src(*index) + "] := "@
            + value_src(value),
        Instruction::Print { value } => "print("@ + value_src(value) + ")"@,
        Instruction::Call { func, args, result } => (match result {
            Some(r) => r@ + " := "@,
            None => Seq::empty(),
        }) + func@ + "("@ + values_src(args@) + ")"@,
        Instruction::IteratorInit { iterator, iterable } => iterator@ + " := iter_init("@ + value_src(iterable) + ")"@,
        Instruction::ChannelDecl { name, type_ } => "channel "@ + name@ + ": "@ + type_src(type_),
        Instruction::Send { channel, value } => "send("@ + channel@ + ", "@ + value_src(value) + ")"@,
        Instruction::Receive { channel, target } => "recv("@ + channel@ + ") -> "@ + target@,
        Instruction::ChannelSend { channel, value } => "send("@ + channel@ + ", "@ + value_src(value) + ")"@,
        Instruction::ChannelReceive { channel, target } => "recv("@ + channel@ + ") -> "@ + target@,
        Instruction::Allocate { target, size, type_ } => target@ + ": "@ + type_src(type_) + " := alloc("@
            + value_src(size) + ")"@,
        Instruction::Free { ptr } => "free("@ + value_src(ptr) + ")"@,
        Instruction::RegionEnter { name } => "region "@ + name@ + " {"@,
        Instruction::RegionExit { name } => "} // end region "@ + name@,
    }
}

/// Names separated by `, `.
pub open spec fn names_src(ns: Seq<String>) -> Seq<char>
    decreases ns.len(),
{
    if ns.len() == 0 {
        Seq::empty()
    } else {
        names_src(ns.drop_last()) + (if ns.len() > 1 { ", "@ } else { Seq::empty() }) + ns.last()@
    }
}

/// A pattern, source-shaped; a record pattern as its name with its
/// bindings in parentheses.
pub open spec fn pattern_src(p: SemanticPattern) -> Seq<char> {
    match p {
        SemanticPattern::SomeBinding { binding } => "Some("@ + binding@ + ")"@,
        SemanticPattern::NoneCase => "None"@,
        SemanticPattern::OkBinding { binding } => "Ok("@ + binding@ + ")"@,
        SemanticPattern::Error { binding } => "Error("@ + binding@ + ")"@,
        SemanticPattern::Wildcard => "_"@,
        SemanticPattern::Literal(v) => value_src(v),
        SemanticPattern::Record { name, bindings } => name@ + "("@ + names_src(bindings@) + ")"@,
    }
}

/// The cases of a switch, each as ` case P -> [B],`.
pub open spec fn cases_src(cs: Seq<(SemanticPattern, usize)>) -> Seq<char>
    decreases cs.len(),
{
    if cs.len() == 0 {
        Seq::empty()
    } else {
        cases_src(cs.drop_last()) + " case "@ + pattern_src(cs.last().0) + " -> ["@ + dec(cs.last().1 as nat) + "],"@
    }
}

/// Block ids separated by `, `.
pub open spec fn ids_src(ids: Seq<usize>) -> Seq<char>
    decreases ids.len(),
{
    if ids.len() == 0 {
        Seq::empty()
    } else {
        ids_src(ids.drop_last()) + (if ids.len() > 1 { ", "@ } else { Seq::empty() }) + dec(ids.last() as nat)
    }
}

/// A terminator, source-shaped.
pub open spec fn terminator_src(t: Terminator) -> Seq<char> {
    match t {
        Terminator::Return { value, .. } => match value {
            Some(v) => "return "@ + value_src(v),
            None => "return"@,
        },
        Terminator::Jump { block } => "jump -> ["@ + dec(block as nat) + "]"@,
        Terminator::Branch { condition, then_block, else_block } => "branch "@ + value_src(condition) + " ? ["@
            + dec(then_block as nat) + "] : ["@ + dec(else_block as nat) + "]"@,
        Terminator::Switch { value, cases, default_block } => "switch "@ + value_src(value) + " {"@ + cases_src(cases@)
            + (match default_block {
                Some(d) => " default -> ["@ + dec(d as nat) + "]"@,
                None => Seq::empty(),
            }) + " }"@,
        Terminator::IteratorNext { iterator, target, body_block, exit_block } => "iter_next("@ + iterator@
            + ") -> body ["@ + dec(body_block as nat) + "] ("@ + target@ + " bound), exit ["@ + dec(exit_block as nat)
            + "]"@,
        Terminator::Spawn { entry_block } => "spawn -> ["@ + dec(entry_block as nat) + "]"@,
        Terminator::Fork { blocks, join_block } => "fork ["@ + ids_src(blocks@) + "] join ["@ + dec(join_block as nat)
            + "]"@,
    }
}

#[verifier::rlimit(100)]
#[verifier::spinoff_prover]
fn push_instruction(out: &mut String, i: &Instruction)
    ensures
        final(out)@ == old(out)@ + instruction_src(*i),
{
    match i {
        Instruction::Nop => out.append("nop"),
        Instruction::Declare { name, mutable, type_, value } => {
            if *mutable {
                out.append("var");
            } else {
                out.append("val");
            }
            out.append(" ");
            out.append(name.as_str());
            out.append(": ");
            push_type(out, type_);
            out.append(" := ");
            push_value(out, value);
        },
        Instruction::Assign { target, value } => {
            out.append(target.as_str());
            out.append(" := ");
            push_value(out, value);
        },
        Instruction::ArrayAssign { array, index, value } => {
            push_value(out, array);
            out.append("[");
            push_value(out, index);
            out.append("] := ");
            push_value(out, value);
        },
        Instruction::Print { value } => {
            out.append("print(");
            push_value(out, value);
            out.append(")");
        },
        Instruction::Call { func, args, result } => {
            match result {
                Some(r) => {
                    out.append(r.as_str());
                    out.append(" := ");
                },
                None => {
                    assert(out@ + Seq::<char>::empty() =~= out@);
                },
            }
            out.append(func.as_str());
            out.append("(");
            push_values(out, args);
            out.append(")");
        },
        Instruction::IteratorInit { iterator, iterable } => {
            out.append(iterator.as_str());
            out.append(" := iter_init(");
            push_value(out, iterable);
            out.append(")");
        },
        Instruction::ChannelDecl { name, type_ } => {
            out.append("channel ");
            out.append(name.as_str());
            out.append(": ");
            push_type(out, type_);
        },
        Instruction::Send { channel, value } | Instruction::ChannelSend { channel, value } => {
            out.append("send(");
            out.append(channel.as_str());
            out.append(", ");
            push_value(out, value);
            out.append(")");
        },
        Instruction::Receive { channel, target } | Instruction::ChannelReceive { channel, target } => {
            out.append("recv(");
            out.append(channel.as_str());
            out.append(") -> ");
            out.append(target.as_str());
        },
        Instruction::Allocate { target, size, type_ } => {
            out.append(target.as_str());
            out.append(": ");
            push_type(out, type_);
            out.append(" := alloc(");
            push_value(out, size);
            out.append(")");
        },
        Instruction::Free { ptr } => {
            out.append("free(");
            push_value(out, ptr);
            out.append(")");
        },
        Instruction::RegionEnter { name } => {
            out.append("region ");
            out.append(name.as_str());
            out.append(" {");
        },
        Instruction::RegionExit { name } => {
            out.append("} // end region ");
            out.append(name.as_str());
        },
    }
}

fn push_names(out: &mut String, ns: &Vec<String>)
    ensures
        final(out)@ == old(out)@ + names_src(ns@),
{
    let ghost start = out@;
    let mut i: usize = 0;
    while i < ns.len()
        invariant
            0 <= i <= ns@.len(),
            out@ == start + names_src(ns@.take(i as int)),
        decreases ns@.len() - i,
    {
        proof {
            assert(ns@.take(i + 1).drop_last() =~= ns@.take(i as int));
        }
        if i > 0 {
            out.append(", ");
        }
        out.append(ns[i].as_str());
        i = i + 1;
    }
    proof {
        assert(ns@.take(ns@.len() as int) =~= ns@);
    }
}

fn push_pattern(out: &mut String, p: &SemanticPattern)
    ensures
        final(out)@ == old(out)@ + pattern_src(*p),
{
    match p {
        SemanticPattern::SomeBinding { binding } => {
            out.append("Some(");
            out.append(binding.as_str());
            out.append(")");
        },
        SemanticPattern::NoneCase => out.append("None"),
        SemanticPattern::OkBinding { binding } => {
            out.append("Ok(");
            out.append(binding.as_str());
            out.append(")");
        },
        SemanticPattern::Error { binding } => {
            out.append("Error(");
            out.append(binding.as_str());
            out.append(")");
        },
        SemanticPattern::Wildcard => out.append("_"),
        SemanticPattern::Literal(v) => push_value(out, v),
        SemanticPattern::Record { name, bindings } => {
            out.append(name.as_str());
            out.append("(");
            push_names(out, bindings);
            out.append(")");
        },
    }
}

fn push_ids(out: &mut String, ids: &Vec<usize>)
    ensures
        final(out)@ == old(out)@ + ids_src(ids@),
{
    let ghost start = out@;
    let mut i: usize = 0;
    while i < ids.len()
        invariant
            0 <= i <= ids@.len(),
            out@ == start + ids_src(ids@.take(i as int)),
        decreases ids@.len() - i,
    {
        proof {
            assert(ids@.take(i + 1).drop_last() =~= ids@.take(i as int));
        }
        if i > 0 {
            out.append(", ");
        }
        push_usize(out, ids[i]);
        i = i + 1;
    }
    proof {
        assert(ids@.take(ids@.len() as int) =~= ids@);
    }
}

#[verifier::rlimit(100)]
#[verifier::spinoff_prover]
fn push_terminator(out: &mut String, t: &Terminator)
    ensures
        final(out)@ == old(out)@ + terminator_src(*t),
{
    match t {
        Terminator::Return { value, .. } => match value {
            Some(v) => {
                out.append("return ");
                push_value(out, v);
            },
            None => out.append("return"),
        },
        Terminator::Jump { block } => {
            out.append("jump -> [");
            push_usize(out, *block);
            out.append("]");
        },
        Terminator::Branch { condition, then_block, else_block } => {
            out.append("branch ");
            push_value(out, condition);
            out.append(" ? [");
            push_usize(out, *then_block);
            out.append("] : [");
            push_usize(out, *else_block);
            out.append("]");
        },
        Terminator::Switch { value, cases, default_block } => {
            out.append("switch ");
            push_value(out, value);
            out.append(" {");
            let ghost start = out@;
            let mut i: usize = 0;
            while i < cases.len()
                invariant
                    0 <= i <= cases@.len(),
                    out@ == start + cases_src(cases@.take(i as int)),
                decreases cases@.len() - i,
            {
                proof {
                    assert(cases@.take(i + 1).drop_last() =~= cases@.take(i as int));
                }
                out.append(" case ");
                push_pattern(out, &cases[i].0);
                out.append(" -> [");
                push_usize(out, cases[i].1);
                out.append("],");
                i = i + 1;
            }
            proof {
                assert(cases@.take(cases@.len() as int) =~= cases@);
            }
            match default_block {
                Some(d) => {
                    out.append(" default -> [");
                    push_usize(out, *d);
                    out.append("]");
                },
                None => {
                    assert(out@ + Seq::<char>::empty() =~= out@);
                },
            }
            out.append(" }");
        },
        Terminator::IteratorNext { iterator, target, body_block, exit_block } => {
            out.append("iter_next(");
            out.append(iterator.as_str());
            out.append(") -> body [");
            push_usize(out, *body_block);
            out.append("] (");
            out.append(target.as_str());
            out.append(" bound), exit [");
            push_usize(out, *exit_block);
            out.append("]");
        },
        Terminator::Spawn { entry_block } => {
            out.append("spawn -> [");
            push_usize(out, *entry_block);
            out.append("]");
        },
        Terminator::Fork { blocks, join_block } => {
            out.append("fork [");
            push_ids(out, blocks);
            out.append("] join [");
            push_usize(out, *join_block);
            out.append("]");
        },
    }
}

// ─── Blocks and functions ───────────────────────────────────────────

pub open spec fn header_src(b: SemanticBlock, entry: usize) -> Seq<char> {
    "  ["@ + dec(b.id as nat) + "]"@ + (if b.id == entry { " (entry)"@ } else { Seq::empty() })
}

pub open spec fn instrs_src(is: Seq<Instruction>) -> Seq<char>
    decreases is.len(),
{
    if is.len() == 0 {
        Seq::empty()
    } else {
        instrs_src(is.drop_last()) + "    "@ + instruction_src(is.last()) + "\n"@
    }
}

/// A block in the linear view: its header, each instruction on a line of
/// its own, then its terminator, if any.
pub open spec fn block_linear(b: SemanticBlock, entry: usize) -> Seq<char> {
    header_src(b, entry) + ":\n"@ + instrs_src(b.instructions@) + (match b.terminator {
        Some(t) => "    "@ + terminator_src(t) + "\n"@,
        None => Seq::empty(),
    })
}

/// Block ids, each in brackets, separated by `, `.
pub open spec fn targets_src(ids: Seq<usize>) -> Seq<char>
    decreases ids.len(),
{
    if ids.len() == 0 {
        Seq::empty()
    } else {
        targets_src(ids.drop_last()) + (if ids.len() > 1 { ", "@ } else { Seq::empty() }) + "["@
            + dec(ids.last() as nat) + "]"@
    }
}

/// A block in the control-flow view: its header and where control goes
/// from it.
pub open spec fn block_cfg(b: SemanticBlock, entry: usize) -> Seq<char> {
    header_src(b, entry) + (match b.terminator {
        None => " -> (no terminator)"@,
        Some(t) => if t is Return {
            " -> return"@
        } else if succs(t).len() == 0 {
            " -> (no successors)"@
        } else {
            " -> "@ + targets_src(succs(t))
        },
    }) + "\n"@
}

pub open spec fn blocks_src(bs: Seq<SemanticBlock>, entry: usize, mode: FormatMode) -> Seq<char>
    decreases bs.len(),
{
    if bs.len() == 0 {
        Seq::empty()
    } else {
        blocks_src(bs.drop_last(), entry, mode) + (if mode == FormatMode::Cfg {
            block_cfg(bs.last(), entry)
        } else {
            block_linear(bs.last(), entry)
        })
    }
}

pub open spec fn params_src(ps: Seq<(String, Type)>) -> Seq<char>
    decreases ps.len(),
{
    if ps.len() == 0 {
        Seq::empty()
    } else {
        params_src(ps.drop_last()) + (if ps.len() > 1 { ", "@ } else { Seq::empty() }) + ps.last().0@ + ": "@
            + type_src(ps.last().1)
    }
}

/// A function: its header in source form, then its blocks as `mode` shows
/// them (none for the signatures view).
pub open spec fn function_src(f: SemanticFunction, mode: FormatMode) -> Seq<char> {
    "function "@ + f.name@ + "("@ + params_src(f.params@) + ") -> "@ + type_src(f.return_type)
        + (if f.is_extern { "  (extern)"@ } else { Seq::empty() }) + "\n"@
        + (if mode == FormatMode::Signatures { Seq::empty() } else { blocks_src(f.blocks@, f.entry_block, mode) })
}

/// The functions, separated by empty lines.
pub open spec fn functions_src(fs: Seq<SemanticFunction>, mode: FormatMode) -> Seq<char>
    decreases fs.len(),
{
    if fs.len() == 0 {
        Seq::empty()
    } else {
        functions_src(fs.drop_last(), mode) + (if fs.len() > 1 { "\n"@ } else { Seq::empty() })
            + function_src(fs.last(), mode)
    }
}

fn push_block_linear(out: &mut String, b: &SemanticBlock, entry: usize)
    ensures
        final(out)@ == old(out)@ + block_linear(*b, entry),
{
    out.append("  [");
    push_usize(out, b.id);
    out.append("]");
    if b.id == entry {
        out.append(" (entry)");
    } else {
        assert(out@ + Seq::<char>::empty() =~= out@);
    }
    out.append(":\n");
    let ghost start = out@;
    let mut i: usize = 0;
    while i < b.instructions.len()
        invariant
            0 <= i <= b.instructions@.len(),
            out@ == start + instrs_src(b.instructions@.take(i as int)),
        decreases b.instructions@.len() - i,
    {
        proof {
            assert(b.instructions@.take(i + 1).drop_last() =~= b.instructions@.take(i as int));
        }
        out.append("    ");
        push_instruction(out, &b.instructions[i]);
        out.append("\n");
        i = i + 1;
    }
    proof {
        assert(b.instructions@.take(b.instructions@.len() as int) =~= b.instructions@);
    }
    match &b.terminator {
        Some(t) => {
            out.append("    ");
            push_terminator(out, t);
            out.append("\n");
        },
        None => {
            assert(out@ + Seq::<char>::empty() =~= out@);
        },
    }
}

fn push_targets(out: &mut String, ids: &Vec<usize>)
    ensures
        final(out)@ == old(out)@ + targets_src(ids@),
{
    let ghost start = out@;
    let mut i: usize = 0;
    while i < ids.len()
        invariant
            0 <= i <= ids@.len(),
            out@ == start + targets_src(ids@.take(i as int)),
        decreases ids@.len() - i,
    {
        proof {
            assert(ids@.take(i + 1).drop_last() =~= ids@.take(i as int));
        }
        if i > 0 {
            out.append(", ");
        }
        out.append("[");
        push_usize(out, ids[i]);
        out.append("]");
        i = i + 1;
    }
    proof {
        assert(ids@.take(ids@.len() as int) =~= ids@);
    }
}

fn push_block_cfg(out: &mut String, b: &SemanticBlock, entry: usize)
    ensures
        final(out)@ == old(out)@ + block_cfg(*b, entry),
{
    out.append("  [");
    push_usize(out, b.id);
    out.append("]");
    if b.id == entry {
        out.append(" (entry)");
    } else {
        assert(out@ + Seq::<char>::empty() =~= out@);
    }
    match &b.terminator {
        None => out.append(" -> (no terminator)"),
        Some(t) => {
            if let Terminator::Return { .. } = t {
                out.append(" -> return");
            } else {
                let ss = t.successors();
                if ss.len() == 0 {
                    out.append(" -> (no successors)");
                } else {
                    out.append(" -> ");
                    push_targets(out, &ss);
                }
            }
        },
    }
    out.append("\n");
}

fn push_params(out: &mut String, ps: &Vec<(String, Type)>)
    ensures
        final(out)@ == old(out)@ + params_src(ps@),
{
    let ghost start = out@;
    let mut i: usize = 0;
    while i < ps.len()
        invariant
            0 <= i <= ps@.len(),
            out@ == start + params_src(ps@.take(i as int)),
        decreases ps@.len() - i,
    {
        proof {
            assert(ps@.take(i + 1).drop_last() =~= ps@.take(i as int));
        }
        if i > 0 {
            out.append(", ");
        }
        out.append(ps[i].0.as_str());
        out.append(": ");
        push_type(out, &ps[i].1);
        i = i + 1;
    }
    proof {
        assert(ps@.take(ps@.len() as int) =~= ps@);
    }
}

fn push_function(out: &mut String, f: &SemanticFunction, mode: FormatMode)
    ensures
        final(out)@ == old(out)@ + function_src(*f, mode),
{
    out.append("function ");
    out.append(f.name.as_str());
    out.append("(");
    push_params(out, &f.params);
    out.append(") -> ");
    push_type(out, &f.return_type);
    if f.is_extern {
        out.append("  (extern)");
    } else {
        assert(out@ + Seq::<char>::empty() =~= out@);
    }
    out.append("\n");
    if mode == FormatMode::Signatures {
        assert(out@ + Seq::<char>::empty() =~= out@);
    } else {
        let ghost start = out@;
        let mut i: usize = 0;
        while i < f.blocks.len()
            invariant
                0 <= i <= f.blocks@.len(),
                mode != FormatMode::Signatures,
                out@ == start + blocks_src(f.blocks@.take(i as int), f.entry_block, mode),
            decreases f.blocks@.len() - i,
        {
            proof {
                assert(f.blocks@.take(i + 1).drop_last() =~= f.blocks@.take(i as int));
            }
            if mode == FormatMode::Cfg {
                push_block_cfg(out, &f.blocks[i], f.entry_block);
            } else {
                push_block_linear(out, &f.blocks[i], f.entry_block);
            }
            i = i + 1;
        }
        proof {
            assert(f.blocks@.take(f.blocks@.len() as int) =~= f.blocks@);
        }
    }
}

// ─── The program ────────────────────────────────────────────────────

/// Where `a` and `b` first differ: the length of their common prefix.
pub open spec fn first_diff(a: Seq<char>, b: Seq<char>) -> nat
    decreases a.len(),
{
    if a.len() == 0 || b.len() == 0 || a[0] != b[0] {
        0
    } else {
        1 + first_diff(a.drop_first(), b.drop_first())
    }
}

/// `a` comes before `b` in the order of `str`: by the first character
/// where they differ, or, where one begins the other, the shorter first.
pub open spec fn text_lt(a: Seq<char>, b: Seq<char>) -> bool {
    let k = first_diff(a, b) as int;
    if k < a.len() && k < b.len() { (a[k] as u32) < (b[k] as u32) } else { a.len() < b.len() }
}

/// `e` put into `s` before the first entry whose key comes after its own.
pub open spec fn insert_by_key(s: Seq<(Seq<char>, Seq<char>)>, e: (Seq<char>, Seq<char>)) -> Seq<(Seq<char>, Seq<char>)>
    decreases s.len(),
{
    if s.len() == 0 {
        seq![e]
    } else if text_lt(e.0, s[0].0) {
        seq![e] + s
    } else {
        seq![s[0]] + insert_by_key(s.drop_first(), e)
    }
}

/// The entries ordered by key, entries with equal keys in their order in
/// `s`.
pub open spec fn sorted_by_key(s: Seq<(Seq<char>, Seq<char>)>) -> Seq<(Seq<char>, Seq<char>)>
    decreases s.len(),
{
    if s.len() == 0 {
        Seq::empty()
    } else {
        insert_by_key(sorted_by_key(s.drop_last()), s.last())
    }
}

pub open spec fn pair_views(v: Seq<(String, String)>) -> Seq<(Seq<char>, Seq<char>)> {
    Seq::new(v.len(), |i: int| (v[i].0@, v[i].1@))
}

/// Each entry on a line of its own, as `  name -> symbol`.
pub open spec fn symbols_src(s: Seq<(Seq<char>, Seq<char>)>) -> Seq<char>
    decreases s.len(),
{
    if s.len() == 0 {
        Seq::empty()
    } else {
        symbols_src(s.drop_last()) + "  "@ + s.last().0 + " -> "@ + s.last().1 + "\n"@
    }
}

/// A program as text: its functions (or `(no functions)`), then its
/// foreign symbols ordered by name, then its foreign libraries.
pub open spec fn program_src(p: SemanticProgram, mode: FormatMode) -> Seq<char> {
    (if p.functions@.len() == 0 { "(no functions)\n"@ } else { functions_src(p.functions@, mode) })
        + (if p.ffi_symbols@.len() == 0 {
            Seq::empty()
        } else {
            "\n"@ + "ffi symbols:\n"@ + symbols_src(sorted_by_key(pair_views(p.ffi_symbols@)))
        })
        + (if p.ffi_libraries@.len() == 0 {
            Seq::empty()
        } else {
            "ffi libraries: "@ + names_src(p.ffi_libraries@) + "\n"@
        })
}

proof fn lemma_first_diff(a: Seq<char>, b: Seq<char>, k: int)
    requires
        0 <= k <= a.len(),
        k <= b.len(),
        forall|j: int| 0 <= j < k ==> a[j] == b[j],
        k == a.len() || k == b.len() || a[k] != b[k],
    ensures
        first_diff(a, b) == k,
    decreases k,
{
    if k > 0 {
        assert forall|j: int| 0 <= j < k - 1 implies a.drop_first()[j] == b.drop_first()[j] by {
            assert(a[j + 1] == b[j + 1]);
        }
        lemma_first_diff(a.drop_first(), b.drop_first(), k - 1);
    }
}

fn text_less(a: &String, b: &String) -> (r: bool)
    ensures
        r == text_lt(a@, b@),
{
    let x = chars_of(a.as_str());
    let y = chars_of(b.as_str());
    let mut i: usize = 0;
    while i < x.len() && i < y.len() && x[i] == y[i]
        invariant
            0 <= i <= x@.len(),
            i <= y@.len(),
            x@ == a@,
            y@ == b@,
            forall|j: int| 0 <= j < i ==> x@[j] == y@[j],
        decreases x@.len() - i,
    {
        i = i + 1;
    }
    proof {
        lemma_first_diff(a@, b@, i as int);
    }
    if i < x.len() && i < y.len() {
        (x[i] as u32) < (y[i] as u32)
    } else {
        x.len() < y.len()
    }
}

proof fn lemma_insert_at(s: Seq<(Seq<char>, Seq<char>)>, e: (Seq<char>, Seq<char>), p: int)
    requires
        0 <= p <= s.len(),
        forall|j: int| 0 <= j < p ==> !text_lt(e.0, #[trigger] s[j].0),
        p == s.len() || text_lt(e.0, s[p].0),
    ensures
        insert_by_key(s, e) == s.take(p) + seq![e] + s.skip(p),
    decreases p,
{
    if p == 0 {
        if s.len() == 0 {
            assert(s.take(0) + seq![e] + s.skip(0) =~= seq![e]);
        } else {
            assert(s.take(0) + seq![e] + s.skip(0) =~= seq![e] + s);
        }
    } else {
        let r = s.drop_first();
        assert forall|j: int| 0 <= j < p - 1 implies !text_lt(e.0, #[trigger] r[j].0) by {
            assert(r[j] == s[j + 1]);
            assert(!text_lt(e.0, s[j + 1].0));
        }
        if p < s.len() {
            assert(r[p - 1] == s[p]);
        }
        assert(!text_lt(e.0, s[0].0));
        lemma_insert_at(r, e, p - 1);
        assert(seq![s[0]] + (r.take(p - 1) + seq![e] + r.skip(p - 1)) =~= s.take(p) + seq![e] + s.skip(p));
    }
}

/// The entries of `v`, ordered by key as `sorted_by_key` orders them.
fn sorted_symbols(v: &Vec<(String, String)>) -> (r: Vec<(String, String)>)
    ensures
        pair_views(r@) == sorted_by_key(pair_views(v@)),
{
    let mut out: Vec<(String, String)> = Vec::new();
    let mut i: usize = 0;
    proof {
        assert(pair_views(out@) =~= sorted_by_key(pair_views(v@).take(0)));
    }
    while i < v.len()
        invariant
            0 <= i <= v@.len(),
            pair_views(out@) == sorted_by_key(pair_views(v@).take(i as int)),
        decreases v@.len() - i,
    {
        let e = (v[i].0.clone(), v[i].1.clone());
        let ghost s0 = pair_views(out@);
        let ghost ev = (e.0@, e.1@);
        let mut p: usize = 0;
        while p < out.len() && !text_less(&e.0, &out[p].0)
            invariant
                0 <= p <= out@.len(),
                s0 == pair_views(out@),
                ev == (e.0@, e.1@),
                forall|j: int| 0 <= j < p ==> !text_lt(ev.0, #[trigger] s0[j].0),
            decreases out@.len() - p,
        {
            p = p + 1;
        }
        proof {
            lemma_insert_at(s0, ev, p as int);
            let w = pair_views(v@).take(i + 1);
            assert(w.drop_last() =~= pair_views(v@).take(i as int));
            assert(w.last() == ev);
        }
        out.insert(p, e);
        proof {
            assert(pair_views(out@) =~= s0.take(p as int) + seq![ev] + s0.skip(p as int));
        }
        i = i + 1;
    }
    proof {
        assert(pair_views(v@).take(v@.len() as int) =~= pair_views(v@));
    }
    out
}

fn push_symbols(out: &mut String, s: &Vec<(String, String)>)
    ensures
        final(out)@ == old(out)@ + symbols_src(pair_views(s@)),
{
    let ghost start = out@;
    let mut i: usize = 0;
    while i < s.len()
        invariant
            0 <= i <= s@.len(),
            out@ == start + symbols_src(pair_views(s@).take(i as int)),
        decreases s@.len() - i,
    {
        proof {
            let w = pair_views(s@).take(i + 1);
            assert(w.drop_last() =~= pair_views(s@).take(i as int));
        }
        out.append("  ");
        out.append(s[i].0.as_str());
        out.append(" -> ");
        out.append(s[i].1.as_str());
        out.append("\n");
        i = i + 1;
    }
    proof {
        assert(pair_views(s@).take(s@.len() as int) =~= pair_views(s@));
    }
}

/// Renders a program in the linear view.
pub fn format_program(program: &SemanticProgram) -> (r: String)
    ensures
        r@ == program_src(*program, FormatMode::Linear),
{
    format_program_with(program, FormatOptions::default())
}

/// Renders a program in the view that `opts` selects.
pub fn format_program_with(program: &SemanticProgram, opts: FormatOptions) -> (r: String)
    ensures
        r@ == program_src(*program, opts.mode),
{
    let mut out = String::new();
    if program.functions.len() == 0 {
        out.append("(no functions)\n");
    } else {
        let mut i: usize = 0;
        while i < program.functions.len()
            invariant
                0 <= i <= program.functions@.len(),
                out@ == functions_src(program.functions@.take(i as int), opts.mode),
            decreases program.functions@.len() - i,
        {
            proof {
                assert(program.functions@.take(i + 1).drop_last() =~= program.functions@.take(i as int));
            }
            if i > 0 {
                out.append("\n");
            } else {
                assert(out@ + Seq::<char>::empty() =~= out@);
            }
            push_function(&mut out, &program.functions[i], opts.mode);
            i = i + 1;
        }
        proof {
            assert(program.functions@.take(program.functions@.len() as int) =~= program.functions@);
        }
    }
    let ghost before = out@;
    if program.ffi_symbols.len() > 0 {
        out.append("\n");
        out.append("ffi symbols:\n");
        let syms = sorted_symbols(&program.ffi_symbols);
        push_symbols(&mut out, &syms);
    } else {
        assert(out@ + Seq::<char>::empty() =~= out@);
    }
    let ghost mid = out@;
    if program.ffi_libraries.len() > 0 {
        out.append("ffi libraries: ");
        push_names(&mut out, &program.ffi_libraries);
        out.append("\n");
    } else {
        assert(out@ + Seq::<char>::empty() =~= out@);
    }
    out
}

} // verus!
