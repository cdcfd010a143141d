//! The lowered IR: untyped values in functions made of blocks of
//! instructions, and a builder that emits into the function and block it
//! is positioned at.

use vstd::prelude::*;
use super::{IRType, IRBinOp};
use crate::common::text::{dec, decimal};
use crate::common::debug_text::{bool_text, int_text, push_bool, push_i64, push_quoted, push_u64, push_usize, quoted};

verus! {

broadcast use vstd::seq_lib::group_seq_properties;

/// An operand.
#[derive(Debug)]
pub enum IRValue {
    Constant(IRConstant),
    Variable(String),
    Temporary(usize),
}

/// A constant. A float is held as the bits of its IEEE 754 double.
#[derive(Debug)]
pub enum IRConstant {
    Int(i64),
    Float(u64),
    String(String),
    Bool(bool),
    List(Vec<IRConstant>),
}

#[derive(Debug)]
pub enum IRInstruction {
    Alloca { name: String, type_: IRType, mutable: bool },
    Store { target: String, value: IRValue },
    Load { result: String, source: String },
    BinaryOp { result: String, op: IRBinOp, left: IRValue, right: IRValue },
    Branch { condition: IRValue, then_block: usize, else_block: usize },
    Jump { block: usize },
    Return { value: Option<IRValue> },
    Call { result: Option<String>, function: String, args: Vec<IRValue> },
    Print { value: IRValue },
    ArrayAccess { result: String, array: String, index: IRValue },
    BoundsCheck { index: IRValue, len: usize },
    Label(usize),
    Nop,
}

#[derive(Debug)]
pub struct IRBlock {
    pub id: usize,
    pub instructions: Vec<IRInstruction>,
}

#[derive(Debug)]
pub struct IRFunction {
    pub name: String,
    pub params: Vec<(String, IRType)>,
    pub return_type: IRType,
    pub blocks: Vec<IRBlock>,
    pub local_vars: Vec<(String, IRType, bool)>,
}

#[derive(Debug)]
pub struct IRProgram {
    pub functions: Vec<IRFunction>,
    pub next_temp: usize,
    pub next_block: usize,
}

// ─── Finding functions and blocks ───────────────────────────────────

/// `fs[k]` is the first function named `name`.
pub open spec fn first_named(fs: Seq<IRFunction>, name: Seq<char>, k: int) -> bool {
    &&& 0 <= k < fs.len()
    &&& fs[k].name@ == name
    &&& forall|j: int| 0 <= j < k ==> (#[trigger] fs[j]).name@ != name
}

pub open spec fn none_named(fs: Seq<IRFunction>, name: Seq<char>) -> bool {
    forall|j: int| 0 <= j < fs.len() ==> (#[trigger] fs[j]).name@ != name
}

/// `bs[k]` is the first block with id `id`.
pub open spec fn first_with_id(bs: Seq<IRBlock>, id: usize, k: int) -> bool {
    &&& 0 <= k < bs.len()
    &&& bs[k].id == id
    &&& forall|j: int| 0 <= j < k ==> (#[trigger] bs[j]).id != id
}

pub open spec fn none_with_id(bs: Seq<IRBlock>, id: usize) -> bool {
    forall|j: int| 0 <= j < bs.len() ==> (#[trigger] bs[j]).id != id
}

fn find_function(fs: &Vec<IRFunction>, name: &str) -> (r: Option<usize>)
    ensures
        match r {
            Some(k) => first_named(fs@, name@, k as int),
            None => none_named(fs@, name@),
        },
{
    let target = name.to_string();
    let mut i: usize = 0;
    while i < fs.len()
        invariant
            0 <= i <= fs@.len(),
            target@ == name@,
            forall|j: int| 0 <= j < i ==> (#[trigger] fs@[j]).name@ != name@,
        decreases fs@.len() - i,
    {
        if fs[i].name == target {
            return Some(i);
        }
        i = i + 1;
    }
    None
}

fn find_block(bs: &Vec<IRBlock>, id: usize) -> (r: Option<usize>)
    ensures
        match r {
            Some(k) => first_with_id(bs@, id, k as int),
            None => none_with_id(bs@, id),
        },
{
    let mut i: usize = 0;
    while i < bs.len()
        invariant
            0 <= i <= bs@.len(),
            forall|j: int| 0 <= j < i ==> (#[trigger] bs@[j]).id != id,
        decreases bs@.len() - i,
    {
        if bs[i].id == id {
            return Some(i);
        }
        i = i + 1;
    }
    None
}

// ─── The program ────────────────────────────────────────────────────

impl IRProgram {
    /// A program with no functions whose counters start at zero.
    pub fn new() -> (r: IRProgram)
        ensures
            r.functions@.len() == 0,
            r.next_temp == 0,
            r.next_block == 0,
    {
        IRProgram { functions: Vec::new(), next_temp: 0, next_block: 0 }
    }

    /// A fresh temporary name, `{prefix}_{n}`, from the temporary counter.
    pub fn new_temp(&mut self, prefix: &str) -> (r: String)
        requires
            old(self).next_temp < usize::MAX,
        ensures
            r@ == prefix@ + "_"@ + dec(old(self).next_temp as nat),
            final(self).next_temp == old(self).next_temp + 1,
            final(self).next_block == old(self).next_block,
            final(self).functions == old(self).functions,
    {
        let mut s = prefix.to_string();
        s.append("_");
        s.append(decimal(self.next_temp).as_str());
        self.next_temp = self.next_temp + 1;
        s
    }

    /// A fresh block id: the block counter's value, which then advances.
    pub fn new_block_id(&mut self) -> (r: usize)
        requires
            old(self).next_block < usize::MAX,
        ensures
            r == old(self).next_block,
            final(self).next_block == old(self).next_block + 1,
            final(self).next_temp == old(self).next_temp,
            final(self).functions == old(self).functions,
    {
        let id = self.next_block;
        self.next_block = self.next_block + 1;
        id
    }

    pub fn add_function(&mut self, function: IRFunction)
        ensures
            final(self).functions@ == old(self).functions@.push(function),
            final(self).next_temp == old(self).next_temp,
            final(self).next_block == old(self).next_block,
    {
        self.functions.push(function);
    }

    /// The first function named `name`.
    pub fn get_function(&self, name: &str) -> (r: Option<&IRFunction>)
        ensures
            match r {
                Some(f) => exists|k: int| first_named(self.functions@, name@, k) && *f == self.functions@[k],
                None => none_named(self.functions@, name@),
            },
    {
        match find_function(&self.functions, name) {
            Some(k) => Some(&self.functions[k]),
            None => None,
        }
    }
}

impl Default for IRProgram {
    fn default() -> (r: IRProgram)
        ensures
            r.functions@.len() == 0,
            r.next_temp == 0,
            r.next_block == 0,
    {
        IRProgram::new()
    }
}

// ─── Text ───────────────────────────────────────────────────────────

/// The text of a type, in the shape of its derived `Debug`.
pub open spec fn type_debug(t: IRType) -> Seq<char>
    decreases t,
{
    match t {
        IRType::Void => "Void"@,
        IRType::Int => "Int"@,
        IRType::Float => "Float"@,
        IRType::String => "String"@,
        IRType::Bool => "Bool"@,
        IRType::List(n) => "List("@ + dec(n as nat) + ")"@,
        IRType::Pointer(b) => "Pointer("@ + type_debug(*b) + ")"@,
    }
}

pub open spec fn binop_debug(op: IRBinOp) -> Seq<char> {
    match op {
        IRBinOp::Add => "Add"@,
        IRBinOp::Subtract => "Subtract"@,
        IRBinOp::Multiply => "Multiply"@,
        IRBinOp::Divide => "Divide"@,
        IRBinOp::Greater => "Greater"@,
        IRBinOp::Less => "Less"@,
        IRBinOp::GreaterEqual => "GreaterEqual"@,
        IRBinOp::LessEqual => "LessEqual"@,
        IRBinOp::Equal => "Equal"@,
        IRBinOp::NotEqual => "NotEqual"@,
        IRBinOp::And => "And"@,
        IRBinOp::Or => "Or"@,
    }
}

/// The text of a constant; a float shows the bits it is held in.
pub open spec fn const_debug(c: IRConstant) -> Seq<char>
    decreases c,
{
    match c {
        IRConstant::Int(i) => "Int("@ + int_text(i as int) + ")"@,
        IRConstant::Float(b) => "Float("@ + dec(b as nat) + ")"@,
        IRConstant::String(t) => "String("@ + quoted(t@) + ")"@,
        IRConstant::Bool(b) => "Bool("@ + bool_text(b) + ")"@,
        IRConstant::List(cs) => "List(["@ + consts_debug(cs@) + "])"@,
    }
}

pub open spec fn consts_debug(cs: Seq<IRConstant>) -> Seq<char>
    decreases cs,
{
    if cs.len() == 0 {
        Seq::empty()
    } else {
        consts_debug(cs.drop_last()) + (if cs.len() > 1 { ", "@ } else { Seq::empty() }) + const_debug(cs.last())
    }
}

pub open spec fn value_debug(v: IRValue) -> Seq<char> {
    match v {
        IRValue::Constant(c) => "Constant("@ + const_debug(c) + ")"@,
        IRValue::Variable(n) => "Variable("@ + quoted(n@) + ")"@,
        IRValue::Temporary(n) => "Temporary("@ + dec(n as nat) + ")"@,
    }
}

pub open spec fn values_debug(vs: Seq<IRValue>) -> Seq<char>
    decreases vs.len(),
{
    if vs.len() == 0 {
        Seq::empty()
    } else {
        values_debug(vs.drop_last()) + (if vs.len() > 1 { ", "@ } else { Seq::empty() }) + value_debug(vs.last())
    }
}

/// The text of an instruction, in the shape of its derived `Debug`.
pub open spec fn instr_debug(i: IRInstruction) -> Seq<char> {
    match i {
        IRInstruction::Alloca { name, type_, mutable } => "Alloca { name: "@ + quoted(name@) + ", type_: "@
            + type_debug(type_) + ", mutable: "@ + bool_text(mutable) + " }"@,
        IRInstruction::Store { target, value } => "Store { target: "@ + quoted(target@) + ", value: "@
            + value_debug(value) + " }"@,
        IRInstruction::Load { result, source } => "Load { result: "@ + quoted(result@) + ", source: "@
            + quoted(source@) + " }"@,
        IRInstruction::BinaryOp { result, op, left, right } => "BinaryOp { result: "@ + quoted(result@)
            + ", op: "@ + binop_debug(op) + ", left: "@ + value_debug(left) + ", right: "@ + value_debug(right) + " }"@,
        IRInstruction::Branch { condition, then_block, else_block } => "Branch { condition: "@
            + value_debug(condition) + ", then_block: "@ + dec(then_block as nat) + ", else_block: "@
            + dec(else_block as nat) + " }"@,
        IRInstruction::Jump { block } => "Jump { block: "@ + dec(block as nat) + " }"@,
        IRInstruction::Return { value } => "Return { value: "@ + (match value {
            Some(v) => "Some("@ + value_debug(v) + ")"@,
            None => "None"@,
        }) + " }"@,
        IRInstruction::Call { result, function, args } => "Call { result: "@ + (match result {
            Some(r) => "Some("@ + quoted(r@) + ")"@,
            None => "None"@,
        }) + ", function: "@ + quoted(function@) + ", args: ["@ + values_debug(args@) + "] }"@,
        IRInstruction::Print { value } => "Print { value: "@ + value_debug(value) + " }"@,
        IRInstruction::ArrayAccess { result, array, index } => "ArrayAccess { result: "@ + quoted(result@)
            + ", array: "@ + quoted(array@) + ", index: "@ + value_debug(index) + " }"@,
        IRInstruction::BoundsCheck { index, len } => "BoundsCheck { index: "@ + value_debug(index) + ", len: "@
            + dec(len as nat) + " }"@,
        IRInstruction::Label(n) => "Label("@ + dec(n as nat) + ")"@,
        IRInstruction::Nop => "Nop"@,
    }
}

fn push_ir_type(out: &mut String, t: &IRType)
    ensures
        final(out)@ == old(out)@ + type_debug(*t),
    decreases t,
{
    match t {
        IRType::Void => out.append("Void"),
        IRType::Int => out.append("Int"),
        IRType::Float => out.append("Float"),
        IRType::String => out.append("String"),
        IRType::Bool => out.append("Bool"),
        IRType::List(n) => {
            out.append("List(");
            push_usize(out, *n);
            out.append(")");
        },
        IRType::Pointer(b) => {
            out.append("Pointer(");
            push_ir_type(out, b);
            out.append(")");
        },
    }
}

/// The text of a type.
fn type_text(t: &IRType) -> (r: String)
    ensures
        r@ == type_debug(*t),
{
    let mut out = String::new();
    push_ir_type(&mut out, t);
    out
}

fn push_binop(out: &mut String, op: IRBinOp)
    ensures
        final(out)@ == old(out)@ + binop_debug(op),
{
    match op {
        IRBinOp::Add => out.append("Add"),
        IRBinOp::Subtract => out.append("Subtract"),
        IRBinOp::Multiply => out.append("Multiply"),
        IRBinOp::Divide => out.append("Divide"),
        IRBinOp::Greater => out.append("Greater"),
        IRBinOp::Less => out.append("Less"),
        IRBinOp::GreaterEqual => out.append("GreaterEqual"),
        IRBinOp::LessEqual => out.append("LessEqual"),
        IRBinOp::Equal => out.append("Equal"),
        IRBinOp::NotEqual => out.append("NotEqual"),
        IRBinOp::And => out.append("And"),
        IRBinOp::Or => out.append("Or"),
    }
}

fn push_const(out: &mut String, c: &IRConstant)
    ensures
        final(out)@ == old(out)@ + const_debug(*c),
    decreases c,
{
    match c {
        IRConstant::Int(i) => {
            out.append("Int(");
            push_i64(out, *i);
            out.append(")");
        },
        IRConstant::Float(b) => {
            out.append("Float(");
            push_u64(out, *b);
            out.append(")");
        },
        IRConstant::String(t) => {
            out.append("String(");
            push_quoted(out, t.as_str());
            out.append(")");
        },
        IRConstant::Bool(b) => {
            out.append("Bool(");
            push_bool(out, *b);
            out.append(")");
        },
        IRConstant::List(cs) => {
            out.append("List([");
            push_consts(out, cs);
            out.append("])");
        },
    }
}

fn push_consts(out: &mut String, cs: &Vec<IRConstant>)
    ensures
        final(out)@ == old(out)@ + consts_debug(cs@),
    decreases cs,
{
    let ghost start = out@;
    let mut i: usize = 0;
    while i < cs.len()
        invariant
            0 <= i <= cs@.len(),
            out@ == start + consts_debug(cs@.take(i as int)),
        decreases cs@.len() - i,
    {
        assert(decreases_to!(cs => cs@[i as int]));
        proof {
            assert(cs@.take(i + 1).drop_last() =~= cs@.take(i as int));
        }
        if i > 0 {
            out.append(", ");
        }
        push_const(out, &cs[i]);
        i = i + 1;
    }
    proof {
        assert(cs@.take(cs@.len() as int) =~= cs@);
    }
}

fn push_value(out: &mut String, v: &IRValue)
    ensures
        final(out)@ == old(out)@ + value_debug(*v),
{
    match v {
        IRValue::Constant(c) => {
            out.append("Constant(");
            push_const(out, c);
            out.append(")");
        },
        IRValue::Variable(n) => {
            out.append("Variable(");
            push_quoted(out, n.as_str());
            out.append(")");
        },
        IRValue::Temporary(n) => {
            out.append("Temporary(");
            push_usize(out, *n);
            out.append(")");
        },
    }
}

fn push_values(out: &mut String, vs: &Vec<IRValue>)
    ensures
        final(out)@ == old(out)@ + values_debug(vs@),
{
    let ghost start = out@;
    let mut i: usize = 0;
    while i < vs.len()
        invariant
            0 <= i <= vs@.len(),
            out@ == start + values_debug(vs@.take(i as int)),
        decreases vs@.len() - i,
    {
        proof {
            assert(vs@.take(i + 1).drop_last() =~= vs@.take(i as int));
        }
        if i > 0 {
            out.append(", ");
        }
        push_value(out, &vs[i]);
        i = i + 1;
    }
    proof {
        assert(vs@.take(vs@.len() as int) =~= vs@);
    }
}

/// The text of an instruction.
fn instr_text(i: &IRInstruction) -> (r: String)
    ensures
        r@ == instr_debug(*i),
{
    let mut out = String::new();
    match i {
        IRInstruction::Alloca { name, type_, mutable } => {
            out.append("Alloca { name: ");
            push_quoted(&mut out, name.as_str());
            out.append(", type_: ");
            push_ir_type(&mut out, type_);
            out.append(", mutable: ");
            push_bool(&mut out, *mutable);
            out.append(" }");
        },
        IRInstruction::Store { target, value } => {
            out.append("Store { target: ");
            push_quoted(&mut out, target.as_str());
            out.append(", value: ");
            push_value(&mut out, value);
            out.append(" }");
        },
        IRInstruction::Load { result, source } => {
            out.append("Load { result: ");
            push_quoted(&mut out, result.as_str());
            out.append(", source: ");
            push_quoted(&mut out, source.as_str());
            out.append(" }");
        },
        IRInstruction::BinaryOp { result, op, left, right } => {
            out.append("BinaryOp { result: ");
            push_quoted(&mut out, result.as_str());
            out.append(", op: ");
            push_binop(&mut out, *op);
            out.append(", left: ");
            push_value(&mut out, left);
            out.append(", right: ");
            push_value(&mut out, right);
            out.append(" }");
        },
        IRInstruction::Branch { condition, then_block, else_block } => {
            out.append("Branch { condition: ");
            push_value(&mut out, condition);
            out.append(", then_block: ");
            push_usize(&mut out, *then_block);
            out.append(", else_block: ");
            push_usize(&mut out, *else_block);
            out.append(" }");
        },
        IRInstruction::Jump { block } => {
            out.append("Jump { block: ");
            push_usize(&mut out, *block);
            out.append(" }");
        },
        IRInstruction::Return { value } => {
            out.append("Return { value: ");
            match value {
                Some(v) => {
                    out.append("Some(");
                    push_value(&mut out, v);
                    out.append(")");
                },
                None => out.append("None"),
            }
            out.append(" }");
        },
        IRInstruction::Call { result, function, args } => {
            out.append("Call { result: ");
            match result {
                Some(r) => {
                    out.append("Some(");
                    push_quoted(&mut out, r.as_str());
                    out.append(")");
                },
                None => out.append("None"),
            }
            out.append(", function: ");
            push_quoted(&mut out, function.as_str());
            out.append(", args: [");
            push_values(&mut out, args);
            out.append("] }");
        },
        IRInstruction::Print { value } => {
            out.append("Print { value: ");
            push_value(&mut out, value);
            out.append(" }");
        },
        IRInstruction::ArrayAccess { result, array, index } => {
            out.append("ArrayAccess { result: ");
            push_quoted(&mut out, result.as_str());
            out.append(", array: ");
            push_quoted(&mut out, array.as_str());
            out.append(", index: ");
            push_value(&mut out, index);
            out.append(" }");
        },
        IRInstruction::BoundsCheck { index, len } => {
            out.append("BoundsCheck { index: ");
            push_value(&mut out, index);
            out.append(", len: ");
            push_usize(&mut out, *len);
            out.append(" }");
        },
        IRInstruction::Label(n) => {
            out.append("Label(");
            push_usize(&mut out, *n);
            out.append(")");
        },
        IRInstruction::Nop => out.append("Nop"),
    }
    out
}

pub open spec fn params_text(ps: Seq<(String, IRType)>) -> Seq<char>
    decreases ps.len(),
{
    if ps.len() == 0 {
        Seq::empty()
    } else {
        params_text(ps.drop_last()) + (if ps.len() > 1 { ", "@ } else { Seq::empty() })
            + ps.last().0@ + ": "@ + type_debug(ps.last().1)
    }
}

pub open spec fn locals_text(vs: Seq<(String, IRType, bool)>) -> Seq<char>
    decreases vs.len(),
{
    if vs.len() == 0 {
        Seq::empty()
    } else {
        let v = vs.last();
        locals_text(vs.drop_last()) + "  "@ + (if v.2 { "var"@ } else { "val"@ }) + " "@ + v.0@ + ": "@
            + type_debug(v.1) + "\n"@
    }
}

pub open spec fn instrs_text(is: Seq<IRInstruction>) -> Seq<char>
    decreases is.len(),
{
    if is.len() == 0 { Seq::empty() } else { instrs_text(is.drop_last()) + "    "@ + instr_debug(is.last()) + "\n"@ }
}

pub open spec fn blocks_text(bs: Seq<IRBlock>) -> Seq<char>
    decreases bs.len(),
{
    if bs.len() == 0 {
        Seq::empty()
    } else {
        blocks_text(bs.drop_last()) + "  block "@ + dec(bs.last().id as nat) + ":\n"@ + instrs_text(bs.last().instructions@)
    }
}

pub open spec fn function_text(f: IRFunction) -> Seq<char> {
    "function "@ + f.name@ + "("@ + params_text(f.params@) + ") -> "@ + type_debug(f.return_type) + "\n"@
        + locals_text(f.local_vars@) + blocks_text(f.blocks@) + "\n"@
}

pub open spec fn functions_text(fs: Seq<IRFunction>) -> Seq<char>
    decreases fs.len(),
{
    if fs.len() == 0 { Seq::empty() } else { functions_text(fs.drop_last()) + function_text(fs.last()) }
}

/// The listing of a program.
pub open spec fn program_text(p: IRProgram) -> Seq<char> {
    "ALGOL26 IR Program\n==================\n\n"@ + functions_text(p.functions@)
}

/// Appends `t`.
fn push_text(s: &mut String, t: &str)
    ensures
        final(s)@ == old(s)@ + t@,
{
    s.append(t);
}

fn function_listing(f: &IRFunction) -> (r: String)
    ensures
        r@ == function_text(*f),
{
    let mut out = "function ".to_string();
    push_text(&mut out, f.name.as_str());
    push_text(&mut out, "(");
    let ghost head = out@;
    let mut i: usize = 0;
    assert(f.params@.take(0) =~= Seq::<(String, IRType)>::empty());
    while i < f.params.len()
        invariant
            0 <= i <= f.params@.len(),
            out@ == head + params_text(f.params@.take(i as int)),
        decreases f.params@.len() - i,
    {
        proof {
            assert(f.params@.take(i + 1).drop_last() =~= f.params@.take(i as int));
            assert(f.params@.take(i + 1).last() == f.params@[i as int]);
        }
        if i > 0 {
            push_text(&mut out, ", ");
        }
        push_text(&mut out, f.params[i].0.as_str());
        push_text(&mut out, ": ");
        push_text(&mut out, type_text(&f.params[i].1).as_str());
        proof {
            if i == 0 {
                assert(params_text(f.params@.take(0)) =~= Seq::<char>::empty());
            }
        }
        i = i + 1;
    }
    assert(f.params@.take(f.params@.len() as int) =~= f.params@);
    push_text(&mut out, ") -> ");
    push_text(&mut out, type_text(&f.return_type).as_str());
    push_text(&mut out, "\n");
    let ghost head2 = out@;
    let mut i: usize = 0;
    assert(f.local_vars@.take(0) =~= Seq::<(String, IRType, bool)>::empty());
    while i < f.local_vars.len()
        invariant
            0 <= i <= f.local_vars@.len(),
            out@ == head2 + locals_text(f.local_vars@.take(i as int)),
        decreases f.local_vars@.len() - i,
    {
        proof {
            assert(f.local_vars@.take(i + 1).drop_last() =~= f.local_vars@.take(i as int));
            assert(f.local_vars@.take(i + 1).last() == f.local_vars@[i as int]);
        }
        push_text(&mut out, "  ");
        push_text(&mut out, if f.local_vars[i].2 { "var" } else { "val" });
        push_text(&mut out, " ");
        push_text(&mut out, f.local_vars[i].0.as_str());
        push_text(&mut out, ": ");
        push_text(&mut out, type_text(&f.local_vars[i].1).as_str());
        push_text(&mut out, "\n");
        i = i + 1;
    }
    assert(f.local_vars@.take(f.local_vars@.len() as int) =~= f.local_vars@);
    let ghost head3 = out@;
    let mut j: usize = 0;
    assert(f.blocks@.take(0) =~= Seq::<IRBlock>::empty());
    while j < f.blocks.len()
        invariant
            0 <= j <= f.blocks@.len(),
            out@ == head3 + blocks_text(f.blocks@.take(j as int)),
        decreases f.blocks@.len() - j,
    {
        let b = &f.blocks[j];
        proof {
            assert(f.blocks@.take(j + 1).drop_last() =~= f.blocks@.take(j as int));
            assert(f.blocks@.take(j + 1).last() == *b);
        }
        push_text(&mut out, "  block ");
        push_text(&mut out, decimal(b.id).as_str());
        push_text(&mut out, ":\n");
        let ghost head4 = out@;
        let mut k: usize = 0;
        assert(b.instructions@.take(0) =~= Seq::<IRInstruction>::empty());
        while k < b.instructions.len()
            invariant
                0 <= k <= b.instructions@.len(),
                out@ == head4 + instrs_text(b.instructions@.take(k as int)),
            decreases b.instructions@.len() - k,
        {
            proof {
                assert(b.instructions@.take(k + 1).drop_last() =~= b.instructions@.take(k as int));
                assert(b.instructions@.take(k + 1).last() == b.instructions@[k as int]);
            }
            push_text(&mut out, "    ");
            push_text(&mut out, instr_text(&b.instructions[k]).as_str());
            push_text(&mut out, "\n");
            k = k + 1;
        }
        assert(b.instructions@.take(b.instructions@.len() as int) =~= b.instructions@);
        j = j + 1;
    }
    assert(f.blocks@.take(f.blocks@.len() as int) =~= f.blocks@);
    push_text(&mut out, "\n");
    out
}

impl IRProgram {
    /// A listing of the program: each function's signature, local
    /// variables and blocks.
    pub fn display(&self) -> (r: String)
        ensures
            r@ == program_text(*self),
    {
        let mut out = "ALGOL26 IR Program\n==================\n\n".to_string();
        let ghost head = out@;
        let mut i: usize = 0;
        assert(self.functions@.take(0) =~= Seq::<IRFunction>::empty());
        while i < self.functions.len()
            invariant
                0 <= i <= self.functions@.len(),
                out@ == head + functions_text(self.functions@.take(i as int)),
            decreases self.functions@.len() - i,
        {
            proof {
                assert(self.functions@.take(i + 1).drop_last() =~= self.functions@.take(i as int));
                assert(self.functions@.take(i + 1).last() == self.functions@[i as int]);
            }
            push_text(&mut out, function_listing(&self.functions[i]).as_str());
            i = i + 1;
        }
        assert(self.functions@.take(self.functions@.len() as int) =~= self.functions@);
        out
    }
}

// ─── The builder ────────────────────────────────────────────────────

/// Emits into the function being built, at its current block.
pub struct IRBuilder {
    pub program: IRProgram,
    current_function: Option<String>,
    current_block: usize,
    scopes: Vec<Vec<String>>,
}

pub open spec fn names(v: Seq<String>) -> Seq<Seq<char>> {
    Seq::new(v.len(), |i: int| v[i]@)
}

/// `g` is `f` with `blocks` in place of its blocks.
pub open spec fn same_but_blocks(f: IRFunction, g: IRFunction) -> bool {
    &&& g.name == f.name
    &&& g.params == f.params
    &&& g.return_type == f.return_type
    &&& g.local_vars == f.local_vars
}

/// `fs2` is `fs` with only function `k` changed.
pub open spec fn only_changed(fs: Seq<IRFunction>, fs2: Seq<IRFunction>, k: int) -> bool {
    &&& fs2.len() == fs.len()
    &&& forall|i: int| 0 <= i < fs.len() && i != k ==> #[trigger] fs2[i] == fs[i]
}

/// The index of the first function named `cur`, if any.
pub open spec fn fn_spot(fs: Seq<IRFunction>, cur: Option<Seq<char>>) -> Option<int> {
    match cur {
        Some(n) => if exists|k: int| first_named(fs, n, k) { Some(choose|k: int| first_named(fs, n, k)) } else { None },
        None => None,
    }
}

/// The function and block `emit` writes to: the first function named
/// `cur` and its first block with id `blk`.
pub open spec fn emit_spot(fs: Seq<IRFunction>, cur: Option<Seq<char>>, blk: usize) -> Option<(int, int)> {
    match fn_spot(fs, cur) {
        Some(k) => if exists|j: int| first_with_id(fs[k].blocks@, blk, j) {
            Some((k, choose|j: int| first_with_id(fs[k].blocks@, blk, j)))
        } else {
            None
        },
        None => None,
    }
}

proof fn lemma_first_named_unique(fs: Seq<IRFunction>, n: Seq<char>, k1: int, k2: int)
    requires
        first_named(fs, n, k1),
        first_named(fs, n, k2),
    ensures
        k1 == k2,
{
    if k1 < k2 {
        assert(fs[k1].name@ != n);
    } else if k2 < k1 {
        assert(fs[k2].name@ != n);
    }
}

proof fn lemma_first_with_id_unique(bs: Seq<IRBlock>, id: usize, j1: int, j2: int)
    requires
        first_with_id(bs, id, j1),
        first_with_id(bs, id, j2),
    ensures
        j1 == j2,
{
    if j1 < j2 {
        assert(bs[j1].id != id);
    } else if j2 < j1 {
        assert(bs[j2].id != id);
    }
}

impl IRBuilder {
    /// The program built so far.
    pub closed spec fn prog(&self) -> IRProgram {
        self.program
    }

    /// The function being built, if any.
    pub closed spec fn current(&self) -> Option<Seq<char>> {
        match self.current_function {
            Some(n) => Some(n@),
            None => None,
        }
    }

    /// The block instructions are emitted into.
    pub closed spec fn block(&self) -> usize {
        self.current_block
    }

    /// The names declared in each open scope, outermost first.
    pub closed spec fn scope_names(&self) -> Seq<Seq<Seq<char>>> {
        Seq::new(self.scopes@.len(), |i: int| names(self.scopes@[i]@))
    }

    /// A builder with an empty program, block 0 current, one open scope,
    /// and no function.
    pub fn new() -> (r: IRBuilder)
        ensures
            r.prog().functions@.len() == 0,
            r.prog().next_temp == 0,
            r.prog().next_block == 1,
            r.current() is None,
            r.block() == 0,
            r.scope_names() == seq![Seq::<Seq<char>>::empty()],
    {
        let mut program = IRProgram::new();
        let current_block = program.new_block_id();
        let r = IRBuilder { program, current_function: None, current_block, scopes: vec![Vec::new()] };
        assert(names(r.scopes@[0]@) =~= Seq::<Seq<char>>::empty());
        assert(r.scope_names() =~= seq![Seq::<Seq<char>>::empty()]);
        r
    }

    /// Starts a function with one empty block, which becomes current.
    pub fn begin_function(&mut self, name: &str, return_type: IRType)
        requires
            old(self).prog().next_block < usize::MAX,
        ensures
            final(self).current() == Some(name@),
            final(self).block() == old(self).prog().next_block,
            final(self).prog().next_block == old(self).prog().next_block + 1,
            final(self).prog().next_temp == old(self).prog().next_temp,
            final(self).prog().functions@.len() == old(self).prog().functions@.len() + 1,
            final(self).prog().functions@.drop_last() == old(self).prog().functions@,
            ({
                let f = final(self).prog().functions@.last();
                &&& f.name@ == name@
                &&& f.params@.len() == 0
                &&& f.return_type == return_type
                &&& f.local_vars@.len() == 0
                &&& f.blocks@.len() == 1
                &&& f.blocks@[0].id == old(self).prog().next_block
                &&& f.blocks@[0].instructions@.len() == 0
            }),
            final(self).scope_names() == old(self).scope_names(),
    {
        self.current_function = Some(name.to_string());
        let block_id = self.program.new_block_id();
        let block = IRBlock { id: block_id, instructions: Vec::new() };
        let function = IRFunction {
            name: name.to_string(),
            params: Vec::new(),
            return_type,
            blocks: vec![block],
            local_vars: Vec::new(),
        };
        self.program.add_function(function);
        self.current_block = block_id;
    }

    /// Leaves the function being built.
    pub fn end_function(&mut self)
        ensures
            final(self).current() is None,
            final(self).block() == old(self).block(),
            final(self).prog() == old(self).prog(),
            final(self).scope_names() == old(self).scope_names(),
    {
        self.current_function = None;
    }

    /// Appends `instruction` to the current block of the function being
    /// built (the first function of that name, its first block of that
    /// id); without such a block, nothing changes.
    pub fn emit(&mut self, instruction: IRInstruction)
        ensures
            final(self).current() == old(self).current(),
            final(self).block() == old(self).block(),
            final(self).scope_names() == old(self).scope_names(),
            final(self).prog().next_temp == old(self).prog().next_temp,
            final(self).prog().next_block == old(self).prog().next_block,
            ({
                let fs = old(self).prog().functions@;
                let fs2 = final(self).prog().functions@;
                match emit_spot(fs, old(self).current(), old(self).block()) {
                    Some((k, j)) => {
                        &&& only_changed(fs, fs2, k)
                        &&& same_but_blocks(fs[k], fs2[k])
                        &&& fs2[k].blocks@.len() == fs[k].blocks@.len()
                        &&& (forall|b: int| 0 <= b < fs[k].blocks@.len() && b != j ==> #[trigger] fs2[k].blocks@[b] == fs[k].blocks@[b])
                        &&& fs2[k].blocks@[j].id == fs[k].blocks@[j].id
                        &&& fs2[k].blocks@[j].instructions@ == fs[k].blocks@[j].instructions@.push(instruction)
                    },
                    None => fs2 == fs,
                }
            }),
    {
        let ghost fs = self.program.functions@;
        match &self.current_function {
            Some(name) => {
                match find_function(&self.program.functions, name.as_str()) {
                    Some(k) => {
                        match find_block(&self.program.functions[k].blocks, self.current_block) {
                            Some(j) => {
                                let mut f = self.program.functions.remove(k);
                                let mut b = f.blocks.remove(j);
                                b.instructions.push(instruction);
                                f.blocks.insert(j, b);
                                self.program.functions.insert(k, f);
                                proof {
                                    let fs2 = self.program.functions@;
                                    assert(fs2 =~= fs.update(k as int, fs2[k as int]));
                                    assert forall|b2: int| 0 <= b2 < fs[k as int].blocks@.len() && b2 != j implies
                                        #[trigger] fs2[k as int].blocks@[b2] == fs[k as int].blocks@[b2] by {
                                        assert(fs2[k as int].blocks@ =~= fs[k as int].blocks@.update(j as int, fs2[k as int].blocks@[j as int]));
                                    }
                                    assert(first_named(fs, self.current()->0, k as int));
                                    assert(first_with_id(fs[k as int].blocks@, self.block(), j as int));
                                    let k2 = choose|k2: int| first_named(fs, self.current()->0, k2);
                                    lemma_first_named_unique(fs, self.current()->0, k as int, k2);
                                    let j2 = choose|j2: int| first_with_id(fs[k as int].blocks@, self.block(), j2);
                                    lemma_first_with_id_unique(fs[k as int].blocks@, self.block(), j as int, j2);
                                }
                            },
                            None => {
                                proof {
                                    assert(first_named(fs, self.current()->0, k as int));
                                    let k2 = choose|k2: int| first_named(fs, self.current()->0, k2);
                                    lemma_first_named_unique(fs, self.current()->0, k as int, k2);
                                }
                            },
                        }
                    },
                    None => {},
                }
            },
            None => {},
        }
    }

    /// Records a local variable of the function being built, and its name
    /// in the innermost open scope.
    pub fn declare_variable(&mut self, name: &str, type_: IRType, mutable: bool)
        ensures
            final(self).current() == old(self).current(),
            final(self).block() == old(self).block(),
            final(self).prog().next_temp == old(self).prog().next_temp,
            final(self).prog().next_block == old(self).prog().next_block,
            ({
                let fs = old(self).prog().functions@;
                let fs2 = final(self).prog().functions@;
                if old(self).current() is Some && exists|k: int| #[trigger] first_named(fs, old(self).current()->0, k) {
                    exists|k: int| #[trigger] first_named(fs, old(self).current()->0, k)
                        && only_changed(fs, fs2, k)
                        && fs2[k].name == fs[k].name
                        && fs2[k].params == fs[k].params
                        && fs2[k].return_type == fs[k].return_type
                        && fs2[k].blocks == fs[k].blocks
                        && fs2[k].local_vars@.len() == fs[k].local_vars@.len() + 1
                        && fs2[k].local_vars@.drop_last() == fs[k].local_vars@
                        && fs2[k].local_vars@.last().0@ == name@
                        && fs2[k].local_vars@.last().1 == type_
                        && fs2[k].local_vars@.last().2 == mutable
                } else {
                    fs2 == fs
                }
            }),
            final(self).scope_names() == if old(self).scope_names().len() == 0 {
                old(self).scope_names()
            } else {
                old(self).scope_names().update(old(self).scope_names().len() - 1, old(self).scope_names().last().push(name@))
            },
    {
        let ghost fs = self.program.functions@;
        let ghost sn = self.scope_names();
        let mut done = false;
        match &self.current_function {
            Some(fname) => {
                match find_function(&self.program.functions, fname.as_str()) {
                    Some(k) => {
                        let mut f = self.program.functions.remove(k);
                        f.local_vars.push((name.to_string(), type_, mutable));
                        self.program.functions.insert(k, f);
                        proof {
                            let fs2 = self.program.functions@;
                            assert(fs2 =~= fs.update(k as int, fs2[k as int]));
                            assert(fs2[k as int].local_vars@.drop_last() =~= fs[k as int].local_vars@);
                            assert(first_named(fs, self.current()->0, k as int));
                        }
                        done = true;
                    },
                    None => {},
                }
            },
            None => {},
        }
        let n = self.scopes.len();
        if n > 0 {
            let mut last = self.scopes.remove(n - 1);
            last.push(name.to_string());
            self.scopes.push(last);
            proof {
                assert(self.scope_names() =~= sn.update(sn.len() - 1, sn.last().push(name@))) by {
                    assert(names(self.scopes@[n - 1]@) =~= sn.last().push(name@));
                }
            }
        } else {
            assert(self.scope_names() =~= sn);
        }
    }

    /// Opens a scope.
    pub fn push_scope(&mut self)
        ensures
            final(self).scope_names() == old(self).scope_names().push(Seq::<Seq<char>>::empty()),
            final(self).prog() == old(self).prog(),
            final(self).current() == old(self).current(),
            final(self).block() == old(self).block(),
    {
        let ghost sn = self.scope_names();
        self.scopes.push(Vec::new());
        assert(self.scope_names() =~= sn.push(Seq::<Seq<char>>::empty())) by {
            assert(names(self.scopes@.last()@) =~= Seq::<Seq<char>>::empty());
        }
    }

    /// Closes the innermost scope, if any.
    pub fn pop_scope(&mut self)
        ensures
            final(self).scope_names() == if old(self).scope_names().len() == 0 {
                old(self).scope_names()
            } else {
                old(self).scope_names().drop_last()
            },
            final(self).prog() == old(self).prog(),
            final(self).current() == old(self).current(),
            final(self).block() == old(self).block(),
    {
        let ghost sn = self.scope_names();
        let _ = self.scopes.pop();
        assert(self.scope_names() =~= if sn.len() == 0 { sn } else { sn.drop_last() });
    }

    /// A fresh block id; the function being built (the first of its name)
    /// gets an empty block with it.
    pub fn new_block(&mut self) -> (r: usize)
        requires
            old(self).prog().next_block < usize::MAX,
        ensures
            r == old(self).prog().next_block,
            final(self).prog().next_block == old(self).prog().next_block + 1,
            final(self).prog().next_temp == old(self).prog().next_temp,
            final(self).current() == old(self).current(),
            final(self).block() == old(self).block(),
            final(self).scope_names() == old(self).scope_names(),
            ({
                let fs = old(self).prog().functions@;
                let fs2 = final(self).prog().functions@;
                if old(self).current() is Some && exists|k: int| #[trigger] first_named(fs, old(self).current()->0, k) {
                    exists|k: int| #[trigger] first_named(fs, old(self).current()->0, k)
                        && only_changed(fs, fs2, k)
                        && same_but_blocks(fs[k], fs2[k])
                        && fs2[k].blocks@.len() == fs[k].blocks@.len() + 1
                        && fs2[k].blocks@.drop_last() == fs[k].blocks@
                        && fs2[k].blocks@.last().id == r
                        && fs2[k].blocks@.last().instructions@.len() == 0
                } else {
                    fs2 == fs
                }
            }),
    {
        let ghost fs = self.program.functions@;
        let id = self.program.new_block_id();
        match &self.current_function {
            Some(fname) => {
                match find_function(&self.program.functions, fname.as_str()) {
                    Some(k) => {
                        let mut f = self.program.functions.remove(k);
                        f.blocks.push(IRBlock { id, instructions: Vec::new() });
                        self.program.functions.insert(k, f);
                        proof {
                            let fs2 = self.program.functions@;
                            assert(fs2 =~= fs.update(k as int, fs2[k as int]));
                            assert(fs2[k as int].blocks@.drop_last() =~= fs[k as int].blocks@);
                            assert(first_named(fs, self.current()->0, k as int));
                        }
                    },
                    None => {},
                }
            },
            None => {},
        }
        id
    }

    /// Makes block `block_id` current.
    pub fn set_block(&mut self, block_id: usize)
        ensures
            final(self).block() == block_id,
            final(self).prog() == old(self).prog(),
            final(self).current() == old(self).current(),
            final(self).scope_names() == old(self).scope_names(),
    {
        self.current_block = block_id;
    }
}

} // verus!
