//! Source-shaped rendering of a parsed program: each statement on a line
//! of its own, indented two spaces per level of nesting, expressions as
//! they are written.

use vstd::prelude::*;
use super::ast::{BinOp, Expr, ExprKind, FunctionDecl, ImplBlock, MatchCaseExpr, Pattern, Stmt, Syn, TraitDecl,
    TraitMethod, TypeSyntax, UnaryOp, WhereClause, lemma_syn_models, syn_models};
use crate::common::text::dec;
use crate::common::debug_text::{bool_text, int_text, push_bool, push_i64, push_quoted, push_u64, quoted};
use crate::ir::semantic_ir::display::{hex, push_hex};

verus! {

// ─── Lines and levels ───────────────────────────────────────────────

/// `o` ending in a line break: unchanged where it already does.
pub open spec fn end_line(o: Seq<char>) -> Seq<char> {
    if o.len() > 0 && o.last() == '\n' { o } else { o.push('\n') }
}

/// Two spaces per level.
pub open spec fn indent_text(l: nat) -> Seq<char>
    decreases l,
{
    if l == 0 { Seq::empty() } else { indent_text((l - 1) as nat) + "  "@ }
}

/// The next level of nesting. Levels are counted in `usize`; nesting
/// that deep cannot be built, and the count stays at its limit there.
pub open spec fn inc(l: nat) -> nat {
    if l < usize::MAX { l + 1 } else { l }
}

// ─── Types and operators ────────────────────────────────────────────

/// A written type: its name, with its arguments in angle brackets; an
/// unknown type as `_`.
pub open spec fn syntax_src(t: Syn) -> Seq<char>
    decreases t,
{
    match t {
        Syn::Named(n) => n,
        Syn::Generic(n, args) => n + "<"@ + syntaxes_src(args) + ">"@,
        Syn::Unknown => "_"@,
    }
}

pub open spec fn syntaxes_src(ts: Seq<Syn>) -> Seq<char>
    decreases ts,
{
    if ts.len() == 0 {
        Seq::empty()
    } else {
        syntaxes_src(ts.drop_last()) + (if ts.len() > 1 { ", "@ } else { Seq::empty() }) + syntax_src(ts.last())
    }
}

pub open spec fn binop_src(op: BinOp) -> Seq<char> {
    match op {
        BinOp::Add => "+"@,
        BinOp::Subtract => "-"@,
        BinOp::Multiply => "*"@,
        BinOp::Divide => "/"@,
        BinOp::Greater => ">"@,
        BinOp::Less => "<"@,
        BinOp::GreaterEqual => ">="@,
        BinOp::LessEqual => "<="@,
        BinOp::Equal => "=="@,
        BinOp::NotEqual => "!="@,
        BinOp::And => "and"@,
        BinOp::Or => "or"@,
    }
}

pub open spec fn unop_src(op: UnaryOp) -> Seq<char> {
    match op {
        UnaryOp::Negate => "-"@,
        UnaryOp::Not => "not "@,
    }
}

/// Strings separated by `, `.
pub open spec fn joined_src(ns: Seq<String>) -> Seq<char>
    decreases ns.len(),
{
    if ns.len() == 0 {
        Seq::empty()
    } else {
        joined_src(ns.drop_last()) + (if ns.len() > 1 { ", "@ } else { Seq::empty() }) + ns.last()@
    }
}

// ─── Expressions, statements, patterns ──────────────────────────────
//
// Each of these gives the text after rendering a node, from the text
// `o` written before it: a line is ended only where it is not already.

/// An expression at level `l`. A float literal shows the bits it is held
/// in.
pub open spec fn fexpr(o: Seq<char>, l: nat, e: Expr) -> Seq<char>
    decreases e, 1nat,
{
    match e.kind {
        ExprKind::Int(i, _) => o + int_text(i as int),
        ExprKind::Number(b, _) => o + "Float("@ + dec(b as nat) + ")"@,
        ExprKind::String(s, _) => o + quoted(s@),
        ExprKind::Bool(b, _) => o + bool_text(b),
        ExprKind::NullPtr(_) => o + "null"@,
        ExprKind::PtrLiteral(p, _) => o + "0x"@ + hex(p as nat),
        ExprKind::Var(n, _) => o + n@,
        ExprKind::Borrow { expr, .. } => fexpr(o + "&"@, l, *expr),
        ExprKind::MutBorrow { expr, .. } => fexpr(o + "&mut "@, l, *expr),
        ExprKind::Deref { expr, .. } => fexpr(o + "*"@, l, *expr),
        ExprKind::AddrOf { expr, .. } => fexpr(o + "addr_of("@, l, *expr) + ")"@,
        ExprKind::SomeValue { value, .. } => fexpr(o + "Some("@, l, *value) + ")"@,
        ExprKind::NoneValue(_) => o + "None"@,
        ExprKind::OkValue { value, .. } => fexpr(o + "Ok("@, l, *value) + ")"@,
        ExprKind::Error { value, .. } => fexpr(o + "Error("@, l, *value) + ")"@,
        ExprKind::List(items, _) => fexprs(o + "["@, l, items@) + "]"@,
        ExprKind::ArrayAccess { array, index, .. } => fexpr(fexpr(o, l, *array) + "["@, l, *index) + "]"@,
        ExprKind::Binary { left, op, right, .. } => fexpr(fexpr(o, l, *left) + " "@ + binop_src(op) + " "@, l, *right),
        ExprKind::Unary { op, expr, .. } => fexpr(o + unop_src(op), l, *expr),
        ExprKind::FunctionCall { name, args, .. } => fexprs(o + name@ + "("@, l, args@) + ")"@,
        ExprKind::Block { statements, trailing_expr, .. } => {
            let a = fstmts(o, inc(l), statements@);
            match trailing_expr {
                Some(t) => end_line(fexpr(a + indent_text(inc(l)), inc(l), *t)),
                None => a,
            }
        },
        ExprKind::If { condition, then_branch, else_branch, .. } => {
            let a = fblock(end_line(fexpr(o + "if "@, l, *condition)), inc(l), *then_branch);
            match else_branch {
                Some(b) => fblock(end_line(a + indent_text(l) + "else"@), inc(l), *b),
                None => a,
            }
        },
        ExprKind::Match { value, cases, .. } => fcases(end_line(fexpr(o + "match "@, l, *value)), l, cases@),
        ExprKind::TryCatch { try_branch, catch_var, catch_branch, finally_body, .. } => {
            let a = fblock(end_line(o + "try"@), inc(l), *try_branch);
            let b = a + indent_text(l) + "catch"@ + (match catch_var {
                Some(v) => " "@ + v@,
                None => Seq::empty(),
            });
            let c = fblock(end_line(b), inc(l), *catch_branch);
            match finally_body {
                Some(f) => fstmts(end_line(c + indent_text(l) + "finally"@), inc(l), f@),
                None => c,
            }
        },
        ExprKind::For { var, iterable, body, trailing_expr, .. } => {
            let a = fstmts(end_line(fexpr(o + "for "@ + var@ + " in "@, l, *iterable)), inc(l), body@);
            match trailing_expr {
                Some(t) => end_line(fexpr(a + indent_text(inc(l)), inc(l), *t)),
                None => a,
            }
        },
        ExprKind::While { condition, body, trailing_expr, .. } => {
            let a = fstmts(end_line(fexpr(o + "while "@, l, *condition)), inc(l), body@);
            match trailing_expr {
                Some(t) => end_line(fexpr(a + indent_text(inc(l)), inc(l), *t)),
                None => a,
            }
        },
        ExprKind::Range { start, end, inclusive, .. } => {
            let a = match start {
                Some(s) => fexpr(o, l, *s),
                None => o,
            };
            let b = a + (if inclusive { "..="@ } else { ".."@ });
            match end {
                Some(t) => fexpr(b, l, *t),
                None => b,
            }
        },
        ExprKind::FieldAccess { object, field, .. } => fexpr(o, l, *object) + "."@ + field@,
        ExprKind::RecordLiteral { name, fields, .. } => ffields(o + name@ + " { "@, l, fields@) + " }"@,
    }
}

/// Expressions separated by `, `.
pub open spec fn fexprs(o: Seq<char>, l: nat, es: Seq<Expr>) -> Seq<char>
    decreases es, 0nat,
{
    if es.len() == 0 {
        o
    } else {
        fexpr(fexprs(o, l, es.drop_last()) + (if es.len() > 1 { ", "@ } else { Seq::empty() }), l, es.last())
    }
}

/// Record fields as `name: value`, separated by `, `.
pub open spec fn ffields(o: Seq<char>, l: nat, fs: Seq<(String, Expr)>) -> Seq<char>
    decreases fs, 0nat,
{
    if fs.len() == 0 {
        o
    } else {
        fexpr(ffields(o, l, fs.drop_last()) + (if fs.len() > 1 { ", "@ } else { Seq::empty() }) + fs.last().0@
            + ": "@, l, fs.last().1)
    }
}

/// An expression where the grammar wants a block: a block's statements
/// and trailing expression at level `l`; any other expression on a line
/// of its own.
pub open spec fn fblock(o: Seq<char>, l: nat, e: Expr) -> Seq<char>
    decreases e, 2nat,
{
    match e.kind {
        ExprKind::Block { statements, trailing_expr, .. } => {
            let a = fstmts(o, l, statements@);
            match trailing_expr {
                Some(t) => end_line(fexpr(a + indent_text(l), l, *t)),
                None => a,
            }
        },
        _ => end_line(fexpr(o + indent_text(l), l, e)),
    }
}

/// The arms of a match: each `case P` line at level `l`, its body a level
/// deeper.
pub open spec fn fcases(o: Seq<char>, l: nat, cs: Seq<MatchCaseExpr>) -> Seq<char>
    decreases cs, 0nat,
{
    if cs.len() == 0 {
        o
    } else {
        let a = fcases(o, l, cs.drop_last());
        fblock(end_line(fpat(a + indent_text(l) + "case "@, cs.last().pattern)), inc(l), cs.last().body)
    }
}

pub open spec fn fpat(o: Seq<char>, p: Pattern) -> Seq<char>
    decreases p, 0nat,
{
    match p {
        Pattern::SomeValue(v) => o + "Some("@ + v@ + ")"@,
        Pattern::NoneValue => o + "None"@,
        Pattern::OkValue(v) => o + "Ok("@ + v@ + ")"@,
        Pattern::Error(v) => o + "Error("@ + v@ + ")"@,
        Pattern::Wildcard => o + "_"@,
        Pattern::Binding(v) => o + v@,
        Pattern::Literal(e) => fexpr(o, 0, e),
        Pattern::SomeNested(q) => fpat(o + "Some("@, *q) + ")"@,
        Pattern::OkNested(q) => fpat(o + "Ok("@, *q) + ")"@,
        Pattern::ErrorNested(q) => fpat(o + "Error("@, *q) + ")"@,
        Pattern::Guarded { pattern, condition } => fexpr(fpat(o, *pattern) + " if "@, 0, *condition),
        Pattern::ListDestructure { first, rest } => {
            let a = o + "["@;
            let b = match first {
                Some(f) => fpat(a, *f),
                None => a,
            };
            let c = match rest {
                Some(r) => fpat(b + (if first is Some { ", "@ } else { Seq::empty() }) + ".."@, *r),
                None => b,
            };
            c + "]"@
        },
        Pattern::Record { name, bindings } => o + name@ + " { "@ + joined_src(bindings@) + " }"@,
        Pattern::Range { start, end } => {
            let a = match start {
                Some(s) => fexpr(o, 0, *s),
                None => o,
            };
            let b = a + ".."@;
            match end {
                Some(t) => fexpr(b, 0, *t),
                None => b,
            }
        },
    }
}

/// A statement at level `l`.
pub open spec fn fstmt(o: Seq<char>, l: nat, s: Stmt) -> Seq<char>
    decreases s, 0nat,
{
    let ind = o + indent_text(l);
    match s {
        Stmt::VarDecl { name, value, type_annotation, mutable, .. } => end_line(fexpr(
            ind + (if mutable { "var "@ } else { "val "@ }) + name@ + (match type_annotation {
                Some(t) => ": "@ + syntax_src(t@),
                None => Seq::empty(),
            }) + " := "@, l, value)),
        Stmt::Assign { name, value, .. } => end_line(fexpr(ind + name@ + " := "@, l, value)),
        Stmt::ArrayAssign { array, index, value, .. } => end_line(fexpr(fexpr(ind + array@ + "["@, l, index) + "] := "@,
            l, value)),
        Stmt::FieldAssign { target, field, value, .. } => fexpr(o + target@ + "."@ + field@ + " := "@, l, value),
        Stmt::Return { value, .. } => end_line(match value {
            Some(e) => fexpr(ind + "return"@ + " "@, l, e),
            None => ind + "return"@,
        }),
        Stmt::Print { expr, .. } => end_line(fexpr(ind + "print("@, l, expr) + ")"@),
        Stmt::Break(_) => end_line(ind + "break"@),
        Stmt::Continue(_) => end_line(ind + "continue"@),
        Stmt::Defer { stmt, .. } => fstmt(end_line(ind + "defer"@), inc(l), *stmt),
        Stmt::Expression(e) => fblock(o, l, e),
        Stmt::RegionBlock { name, body, .. } => fstmts(end_line(ind + "region "@ + name@), inc(l), body@),
        Stmt::UnsafeBlock { body, .. } => fstmts(end_line(ind + "unsafe"@), inc(l), body@),
        Stmt::Import { path, .. } => end_line(ind + "import "@ + path@),
        Stmt::Spawn { body, .. } => fstmts(end_line(ind + "spawn"@), inc(l), body@),
        Stmt::Parallel { blocks, .. } => fpar(end_line(ind + "parallel"@), l, blocks@),
        Stmt::ChannelDecl { name, .. } => end_line(ind + "channel "@ + name@),
        Stmt::Send { channel, value, .. } => end_line(fexpr(ind + "send "@ + channel@ + " "@, l, value)),
        Stmt::Receive { channel, target, .. } => end_line(ind + "receive "@ + channel@ + " into "@ + target@),
    }
}

/// Statements at level `l`, one after another.
pub open spec fn fstmts(o: Seq<char>, l: nat, ss: Seq<Stmt>) -> Seq<char>
    decreases ss, 0nat,
{
    if ss.len() == 0 {
        o
    } else {
        fstmt(fstmts(o, l, ss.drop_last()), l, ss.last())
    }
}

/// The branches of `parallel`, a level deeper, separated by `and` lines
/// at level `l`.
pub open spec fn fpar(o: Seq<char>, l: nat, bs: Seq<Vec<Stmt>>) -> Seq<char>
    decreases bs, 0nat,
{
    if bs.len() == 0 {
        o
    } else {
        let a = fpar(o, l, bs.drop_last());
        let b = if bs.len() > 1 { end_line(a + indent_text(l) + "and"@) } else { a };
        fstmts(b, inc(l), bs.last()@)
    }
}

// ─── Writing ────────────────────────────────────────────────────────

/// Text being written, and whether it ends a line.
struct Printer {
    out: String,
    nl: bool,
}

impl Printer {
    spec fn wf(&self) -> bool {
        self.nl == (self.out@.len() > 0 && self.out@.last() == '\n')
    }
}

fn emit(p: &mut Printer, s: &str)
    requires
        old(p).wf(),
    ensures
        final(p).wf(),
        final(p).out@ == old(p).out@ + s@,
{
    let n = s.unicode_len();
    if n > 0 {
        p.nl = s.get_char(n - 1) == '\n';
    } else {
        assert(s@ =~= Seq::<char>::empty());
    }
    p.out.append(s);
}

fn end_line_p(p: &mut Printer)
    requires
        old(p).wf(),
    ensures
        final(p).wf(),
        final(p).out@ == end_line(old(p).out@),
{
    if !p.nl {
        proof {
            reveal_strlit("\n");
        }
        p.out.append("\n");
        p.nl = true;
    }
}

fn indent_p(p: &mut Printer, l: usize)
    requires
        old(p).wf(),
    ensures
        final(p).wf(),
        final(p).out@ == old(p).out@ + indent_text(l as nat),
{
    let ghost start = p.out@;
    let mut k: usize = 0;
    while k < l
        invariant
            k <= l,
            p.wf(),
            p.out@ == start + indent_text(k as nat),
        decreases l - k,
    {
        emit(p, "  ");
        k = k + 1;
    }
}

fn inc_level(l: usize) -> (r: usize)
    ensures
        r == inc(l as nat),
{
    if l < usize::MAX { l + 1 } else { l }
}

fn emit_quoted(p: &mut Printer, s: &str)
    requires
        old(p).wf(),
    ensures
        final(p).wf(),
        final(p).out@ == old(p).out@ + quoted(s@),
{
    let mut t = String::new();
    push_quoted(&mut t, s);
    emit(p, t.as_str());
}

fn emit_type(p: &mut Printer, t: &TypeSyntax)
    requires
        old(p).wf(),
    ensures
        final(p).wf(),
        final(p).out@ == old(p).out@ + syntax_src(t@),
    decreases t,
{
    match t {
        TypeSyntax::Named(n) => emit(p, n.as_str()),
        TypeSyntax::Generic { name, args } => {
            emit(p, name.as_str());
            emit(p, "<");
            emit_types(p, args);
            emit(p, ">");
        },
        TypeSyntax::Unknown => emit(p, "_"),
    }
}

fn emit_types(p: &mut Printer, args: &Vec<TypeSyntax>)
    requires
        old(p).wf(),
    ensures
        final(p).wf(),
        final(p).out@ == old(p).out@ + syntaxes_src(syn_models(args@)),
    decreases args,
{
    let ghost start = p.out@;
    proof {
        lemma_syn_models(args@);
    }
    let mut i: usize = 0;
    while i < args.len()
        invariant
            0 <= i <= args@.len(),
            p.wf(),
            syn_models(args@).len() == args@.len(),
            forall|j: int| 0 <= j < args@.len() ==> #[trigger] syn_models(args@)[j] == args@[j]@,
            p.out@ == start + syntaxes_src(syn_models(args@).take(i as int)),
        decreases args@.len() - i,
    {
        assert(decreases_to!(args => args@[i as int]));
        proof {
            let m = syn_models(args@).take(i + 1);
            assert(m.drop_last() =~= syn_models(args@).take(i as int));
        }
        if i > 0 {
            emit(p, ", ");
        }
        emit_type(p, &args[i]);
        i = i + 1;
    }
    proof {
        assert(syn_models(args@).take(args@.len() as int) =~= syn_models(args@));
    }
}

fn emit_binop(p: &mut Printer, op: BinOp)
    requires
        old(p).wf(),
    ensures
        final(p).wf(),
        final(p).out@ == old(p).out@ + binop_src(op),
{
    match op {
        BinOp::Add => emit(p, "+"),
        BinOp::Subtract => emit(p, "-"),
        BinOp::Multiply => emit(p, "*"),
        BinOp::Divide => emit(p, "/"),
        BinOp::Greater => emit(p, ">"),
        BinOp::Less => emit(p, "<"),
        BinOp::GreaterEqual => emit(p, ">="),
        BinOp::LessEqual => emit(p, "<="),
        BinOp::Equal => emit(p, "=="),
        BinOp::NotEqual => emit(p, "!="),
        BinOp::And => emit(p, "and"),
        BinOp::Or => emit(p, "or"),
    }
}

fn emit_joined(p: &mut Printer, ns: &Vec<String>)
    requires
        old(p).wf(),
    ensures
        final(p).wf(),
        final(p).out@ == old(p).out@ + joined_src(ns@),
{
    let ghost start = p.out@;
    let mut i: usize = 0;
    while i < ns.len()
        invariant
            0 <= i <= ns@.len(),
            p.wf(),
            p.out@ == start + joined_src(ns@.take(i as int)),
        decreases ns@.len() - i,
    {
        proof {
            assert(ns@.take(i + 1).drop_last() =~= ns@.take(i as int));
        }
        if i > 0 {
            emit(p, ", ");
        }
        emit(p, ns[i].as_str());
        i = i + 1;
    }
    proof {
        assert(ns@.take(ns@.len() as int) =~= ns@);
    }
}

fn emit_trailing(p: &mut Printer, l: usize, t: &Option<Box<Expr>>)
    requires
        old(p).wf(),
    ensures
        final(p).wf(),
        final(p).out@ == (match *t {
            Some(e) => end_line(fexpr(old(p).out@ + indent_text(l as nat), l as nat, *e)),
            None => old(p).out@,
        }),
    decreases t, 0nat,
{
    match t {
        Some(e) => {
            indent_p(p, l);
            format_expr(p, l, e);
            end_line_p(p);
        },
        None => {},
    }
}

#[verifier::rlimit(100)]
#[verifier::spinoff_prover]
fn format_expr(p: &mut Printer, l: usize, e: &Expr)
    requires
        old(p).wf(),
    ensures
        final(p).wf(),
        final(p).out@ == fexpr(old(p).out@, l as nat, *e),
    decreases e, 1nat,
{
    match &e.kind {
        ExprKind::Int(i, _) => {
            let mut t = String::new();
            push_i64(&mut t, *i);
            emit(p, t.as_str());
        },
        ExprKind::Number(b, _) => {
            emit(p, "Float(");
            let mut t = String::new();
            push_u64(&mut t, *b);
            emit(p, t.as_str());
            emit(p, ")");
        },
        ExprKind::String(t, _) => emit_quoted(p, t.as_str()),
        ExprKind::Bool(b, _) => {
            let mut t = String::new();
            push_bool(&mut t, *b);
            emit(p, t.as_str());
        },
        ExprKind::NullPtr(_) => emit(p, "null"),
        ExprKind::PtrLiteral(v, _) => {
            emit(p, "0x");
            let mut t = String::new();
            push_hex(&mut t, *v);
            emit(p, t.as_str());
        },
        ExprKind::Var(n, _) => emit(p, n.as_str()),
        ExprKind::Borrow { expr, .. } => {
            emit(p, "&");
            format_expr(p, l, expr);
        },
        ExprKind::MutBorrow { expr, .. } => {
            emit(p, "&mut ");
            format_expr(p, l, expr);
        },
        ExprKind::Deref { expr, .. } => {
            emit(p, "*");
            format_expr(p, l, expr);
        },
        ExprKind::AddrOf { expr, .. } => {
            emit(p, "addr_of(");
            format_expr(p, l, expr);
            emit(p, ")");
        },
        ExprKind::SomeValue { value, .. } => {
            emit(p, "Some(");
            format_expr(p, l, value);
            emit(p, ")");
        },
        ExprKind::NoneValue(_) => emit(p, "None"),
        ExprKind::OkValue { value, .. } => {
            emit(p, "Ok(");
            format_expr(p, l, value);
            emit(p, ")");
        },
        ExprKind::Error { value, .. } => {
            emit(p, "Error(");
            format_expr(p, l, value);
            emit(p, ")");
        },
        ExprKind::List(items, _) => {
            emit(p, "[");
            format_exprs(p, l, items);
            emit(p, "]");
        },
        _ => format_expr_more(p, l, e),
    }
}

#[verifier::rlimit(100)]
#[verifier::spinoff_prover]
fn format_expr_more(p: &mut Printer, l: usize, e: &Expr)
    requires
        old(p).wf(),
        !(e.kind is Int) && !(e.kind is Number) && !(e.kind is String) && !(e.kind is Bool) && !(e.kind is NullPtr)
            && !(e.kind is PtrLiteral) && !(e.kind is Var) && !(e.kind is Borrow) && !(e.kind is MutBorrow)
            && !(e.kind is Deref) && !(e.kind is AddrOf) && !(e.kind is SomeValue) && !(e.kind is NoneValue)
            && !(e.kind is OkValue) && !(e.kind is Error) && !(e.kind is List),
    ensures
        final(p).wf(),
        final(p).out@ == fexpr(old(p).out@, l as nat, *e),
    decreases e, 0nat,
{
    match &e.kind {
        ExprKind::ArrayAccess { array, index, .. } => {
            format_expr(p, l, array);
            emit(p, "[");
            format_expr(p, l, index);
            emit(p, "]");
            assert(p.out@ == fexpr(old(p).out@, l as nat, *e));
        },
        ExprKind::Binary { left, op, right, .. } => {
            format_expr(p, l, left);
            emit(p, " ");
            emit_binop(p, *op);
            emit(p, " ");
            format_expr(p, l, right);
            assert(p.out@ == fexpr(old(p).out@, l as nat, *e));
        },
        ExprKind::Unary { op, expr, .. } => {
            match op {
                UnaryOp::Negate => emit(p, "-"),
                UnaryOp::Not => emit(p, "not "),
            }
            format_expr(p, l, expr);
            assert(p.out@ == fexpr(old(p).out@, l as nat, *e));
        },
        ExprKind::FunctionCall { name, args, .. } => {
            emit(p, name.as_str());
            emit(p, "(");
            format_exprs(p, l, args);
            emit(p, ")");
            assert(p.out@ == fexpr(old(p).out@, l as nat, *e));
        },
        ExprKind::Block { statements, trailing_expr, .. } => {
            let m = inc_level(l);
            format_stmts(p, m, statements);
            emit_trailing(p, m, trailing_expr);
            assert(p.out@ == fexpr(old(p).out@, l as nat, *e));
        },
        ExprKind::If { condition, then_branch, else_branch, .. } => {
            let m = inc_level(l);
            emit(p, "if ");
            format_expr(p, l, condition);
            end_line_p(p);
            format_block(p, m, then_branch);
            match else_branch {
                Some(b) => {
                    indent_p(p, l);
                    emit(p, "else");
                    end_line_p(p);
                    format_block(p, m, b);
                },
                None => {},
            }
            assert(p.out@ == fexpr(old(p).out@, l as nat, *e));
        },
        ExprKind::Match { value, cases, .. } => {
            emit(p, "match ");
            format_expr(p, l, value);
            end_line_p(p);
            format_cases(p, l, cases);
            assert(p.out@ == fexpr(old(p).out@, l as nat, *e));
        },
        ExprKind::TryCatch { try_branch, catch_var, catch_branch, finally_body, .. } => {
            let m = inc_level(l);
            emit(p, "try");
            end_line_p(p);
            format_block(p, m, try_branch);
            indent_p(p, l);
            emit(p, "catch");
            match catch_var {
                Some(v) => {
                    let ghost before = p.out@;
                    emit(p, " ");
                    emit(p, v.as_str());
                    assert(p.out@ =~= before + (" "@ + v@));
                },
                None => {
                    assert(p.out@ + Seq::<char>::empty() =~= p.out@);
                },
            }
            end_line_p(p);
            format_block(p, m, catch_branch);
            match finally_body {
                Some(f) => {
                    indent_p(p, l);
                    emit(p, "finally");
                    end_line_p(p);
                    format_stmts(p, m, f);
                },
                None => {},
            }
            assert(p.out@ == fexpr(old(p).out@, l as nat, *e));
        },
        ExprKind::For { var, iterable, body, trailing_expr, .. } => {
            let m = inc_level(l);
            emit(p, "for ");
            emit(p, var.as_str());
            emit(p, " in ");
            format_expr(p, l, iterable);
            end_line_p(p);
            format_stmts(p, m, body);
            emit_trailing(p, m, trailing_expr);
            assert(p.out@ == fexpr(old(p).out@, l as nat, *e));
        },
        ExprKind::While { condition, body, trailing_expr, .. } => {
            let m = inc_level(l);
            emit(p, "while ");
            format_expr(p, l, condition);
            end_line_p(p);
            format_stmts(p, m, body);
            emit_trailing(p, m, trailing_expr);
            assert(p.out@ == fexpr(old(p).out@, l as nat, *e));
        },
        ExprKind::Range { start, end, inclusive, .. } => {
            match start {
                Some(x) => format_expr(p, l, x),
                None => {},
            }
            if *inclusive {
                emit(p, "..=");
            } else {
                emit(p, "..");
            }
            match end {
                Some(x) => format_expr(p, l, x),
                None => {},
            }
            assert(p.out@ == fexpr(old(p).out@, l as nat, *e));
        },
        ExprKind::FieldAccess { object, field, .. } => {
            format_expr(p, l, object);
            emit(p, ".");
            emit(p, field.as_str());
            assert(p.out@ == fexpr(old(p).out@, l as nat, *e));
        },
        ExprKind::RecordLiteral { name, fields, .. } => {
            emit(p, name.as_str());
            emit(p, " { ");
            format_fields(p, l, fields);
            emit(p, " }");
            assert(p.out@ == fexpr(old(p).out@, l as nat, *e));
        },
        _ => {},
    }
}

fn format_exprs(p: &mut Printer, l: usize, es: &Vec<Expr>)
    requires
        old(p).wf(),
    ensures
        final(p).wf(),
        final(p).out@ == fexprs(old(p).out@, l as nat, es@),
    decreases es, 0nat,
{
    let ghost start = p.out@;
    let mut i: usize = 0;
    while i < es.len()
        invariant
            0 <= i <= es@.len(),
            p.wf(),
            p.out@ == fexprs(start, l as nat, es@.take(i as int)),
        decreases es@.len() - i,
    {
        assert(decreases_to!(es => es@[i as int]));
        proof {
            assert(es@.take(i + 1).drop_last() =~= es@.take(i as int));
        }
        if i > 0 {
            emit(p, ", ");
        } else {
            assert(p.out@ + Seq::<char>::empty() =~= p.out@);
        }
        format_expr(p, l, &es[i]);
        i = i + 1;
    }
    proof {
        assert(es@.take(es@.len() as int) =~= es@);
    }
}

fn format_fields(p: &mut Printer, l: usize, fs: &Vec<(String, Expr)>)
    requires
        old(p).wf(),
    ensures
        final(p).wf(),
        final(p).out@ == ffields(old(p).out@, l as nat, fs@),
    decreases fs, 0nat,
{
    let ghost start = p.out@;
    let mut i: usize = 0;
    while i < fs.len()
        invariant
            0 <= i <= fs@.len(),
            p.wf(),
            p.out@ == ffields(start, l as nat, fs@.take(i as int)),
        decreases fs@.len() - i,
    {
        assert(decreases_to!(fs => fs@[i as int]));
        proof {
            assert(fs@.take(i + 1).drop_last() =~= fs@.take(i as int));
        }
        if i > 0 {
            emit(p, ", ");
        } else {
            assert(p.out@ + Seq::<char>::empty() =~= p.out@);
        }
        emit(p, fs[i].0.as_str());
        emit(p, ": ");
        format_expr(p, l, &fs[i].1);
        i = i + 1;
    }
    proof {
        assert(fs@.take(fs@.len() as int) =~= fs@);
    }
}

fn format_block(p: &mut Printer, l: usize, e: &Expr)
    requires
        old(p).wf(),
    ensures
        final(p).wf(),
        final(p).out@ == fblock(old(p).out@, l as nat, *e),
    decreases e, 2nat,
{
    match &e.kind {
        ExprKind::Block { statements, trailing_expr, .. } => {
            format_stmts(p, l, statements);
            emit_trailing(p, l, trailing_expr);
        },
        _ => {
            indent_p(p, l);
            format_expr(p, l, e);
            end_line_p(p);
        },
    }
}

fn format_cases(p: &mut Printer, l: usize, cs: &Vec<MatchCaseExpr>)
    requires
        old(p).wf(),
    ensures
        final(p).wf(),
        final(p).out@ == fcases(old(p).out@, l as nat, cs@),
    decreases cs, 0nat,
{
    let ghost start = p.out@;
    let m = inc_level(l);
    let mut i: usize = 0;
    while i < cs.len()
        invariant
            0 <= i <= cs@.len(),
            m == inc(l as nat),
            p.wf(),
            p.out@ == fcases(start, l as nat, cs@.take(i as int)),
        decreases cs@.len() - i,
    {
        assert(decreases_to!(cs => cs@[i as int]));
        proof {
            assert(cs@.take(i + 1).drop_last() =~= cs@.take(i as int));
        }
        indent_p(p, l);
        emit(p, "case ");
        format_pattern(p, &cs[i].pattern);
        end_line_p(p);
        format_block(p, m, &cs[i].body);
        i = i + 1;
    }
    proof {
        assert(cs@.take(cs@.len() as int) =~= cs@);
    }
}

#[verifier::rlimit(100)]
#[verifier::spinoff_prover]
fn format_pattern(p: &mut Printer, q: &Pattern)
    requires
        old(p).wf(),
    ensures
        final(p).wf(),
        final(p).out@ == fpat(old(p).out@, *q),
    decreases q, 0nat,
{
    match q {
        Pattern::SomeValue(v) => {
            emit(p, "Some(");
            emit(p, v.as_str());
            emit(p, ")");
        },
        Pattern::NoneValue => emit(p, "None"),
        Pattern::OkValue(v) => {
            emit(p, "Ok(");
            emit(p, v.as_str());
            emit(p, ")");
        },
        Pattern::Error(v) => {
            emit(p, "Error(");
            emit(p, v.as_str());
            emit(p, ")");
        },
        Pattern::Wildcard => emit(p, "_"),
        Pattern::Binding(v) => emit(p, v.as_str()),
        Pattern::Literal(e) => format_expr(p, 0, e),
        Pattern::SomeNested(r) => {
            emit(p, "Some(");
            format_pattern(p, r);
            emit(p, ")");
        },
        Pattern::OkNested(r) => {
            emit(p, "Ok(");
            format_pattern(p, r);
            emit(p, ")");
        },
        Pattern::ErrorNested(r) => {
            emit(p, "Error(");
            format_pattern(p, r);
            emit(p, ")");
        },
        Pattern::Guarded { pattern, condition } => {
            format_pattern(p, pattern);
            emit(p, " if ");
            format_expr(p, 0, condition);
        },
        Pattern::ListDestructure { first, rest } => {
            emit(p, "[");
            match first {
                Some(f) => format_pattern(p, f),
                None => {},
            }
            match rest {
                Some(r) => {
                    if first.is_some() {
                        emit(p, ", ");
                    } else {
                        assert(p.out@ + Seq::<char>::empty() =~= p.out@);
                    }
                    emit(p, "..");
                    format_pattern(p, r);
                },
                None => {},
            }
            emit(p, "]");
        },
        Pattern::Record { name, bindings } => {
            emit(p, name.as_str());
            emit(p, " { ");
            emit_joined(p, bindings);
            emit(p, " }");
        },
        Pattern::Range { start, end } => {
            match start {
                Some(x) => format_expr(p, 0, x),
                None => {},
            }
            emit(p, "..");
            match end {
                Some(x) => format_expr(p, 0, x),
                None => {},
            }
        },
    }
}

#[verifier::rlimit(100)]
#[verifier::spinoff_prover]
fn format_stmt(p: &mut Printer, l: usize, s: &Stmt)
    requires
        old(p).wf(),
    ensures
        final(p).wf(),
        final(p).out@ == fstmt(old(p).out@, l as nat, *s),
    decreases s, 1nat,
{
    match s {
        Stmt::FieldAssign { target, field, value, .. } => {
            emit(p, target.as_str());
            emit(p, ".");
            emit(p, field.as_str());
            emit(p, " := ");
            format_expr(p, l, value);
            assert(p.out@ == fstmt(old(p).out@, l as nat, *s));
        },
        Stmt::Expression(e) => format_block(p, l, e),
        Stmt::VarDecl { name, value, type_annotation, mutable, .. } => {
            indent_p(p, l);
            if *mutable {
                emit(p, "var ");
            } else {
                emit(p, "val ");
            }
            emit(p, name.as_str());
            match type_annotation {
                Some(t) => {
                    let ghost before = p.out@;
                    emit(p, ": ");
                    emit_type(p, t);
                    assert(p.out@ =~= before + (": "@ + syntax_src(t@)));
                },
                None => {
                    assert(p.out@ + Seq::<char>::empty() =~= p.out@);
                },
            }
            emit(p, " := ");
            format_expr(p, l, value);
            end_line_p(p);
            assert(p.out@ == fstmt(old(p).out@, l as nat, *s));
        },
        Stmt::Assign { name, value, .. } => {
            indent_p(p, l);
            emit(p, name.as_str());
            emit(p, " := ");
            format_expr(p, l, value);
            end_line_p(p);
            assert(p.out@ == fstmt(old(p).out@, l as nat, *s));
        },
        Stmt::ArrayAssign { array, index, value, .. } => {
            indent_p(p, l);
            emit(p, array.as_str());
            emit(p, "[");
            format_expr(p, l, index);
            emit(p, "] := ");
            format_expr(p, l, value);
            end_line_p(p);
            assert(p.out@ == fstmt(old(p).out@, l as nat, *s));
        },
        Stmt::Return { value, .. } => {
            indent_p(p, l);
            emit(p, "return");
            match value {
                Some(e) => {
                    emit(p, " ");
                    format_expr(p, l, e);
                },
                None => {},
            }
            end_line_p(p);
            assert(p.out@ == fstmt(old(p).out@, l as nat, *s));
        },
        Stmt::Print { expr, .. } => {
            indent_p(p, l);
            emit(p, "print(");
            format_expr(p, l, expr);
            emit(p, ")");
            end_line_p(p);
            assert(p.out@ == fstmt(old(p).out@, l as nat, *s));
        },
        Stmt::Break(_) => {
            indent_p(p, l);
            emit(p, "break");
            end_line_p(p);
            assert(p.out@ == fstmt(old(p).out@, l as nat, *s));
        },
        Stmt::Continue(_) => {
            indent_p(p, l);
            emit(p, "continue");
            end_line_p(p);
            assert(p.out@ == fstmt(old(p).out@, l as nat, *s));
        },
        _ => format_stmt_more(p, l, s),
    }
}

#[verifier::rlimit(100)]
#[verifier::spinoff_prover]
fn format_stmt_more(p: &mut Printer, l: usize, s: &Stmt)
    requires
        old(p).wf(),
        !(*s is FieldAssign) && !(*s is Expression) && !(*s is VarDecl) && !(*s is Assign) && !(*s is ArrayAssign)
            && !(*s is Return) && !(*s is Print) && !(*s is Break) && !(*s is Continue),
    ensures
        final(p).wf(),
        final(p).out@ == fstmt(old(p).out@, l as nat, *s),
    decreases s, 0nat,
{
    let m = inc_level(l);
    match s {
        Stmt::Defer { stmt, .. } => {
            indent_p(p, l);
            emit(p, "defer");
            end_line_p(p);
            format_stmt(p, m, stmt);
        },
        Stmt::RegionBlock { name, body, .. } => {
            indent_p(p, l);
            emit(p, "region ");
            emit(p, name.as_str());
            end_line_p(p);
            format_stmts(p, m, body);
        },
        Stmt::UnsafeBlock { body, .. } => {
            indent_p(p, l);
            emit(p, "unsafe");
            end_line_p(p);
            format_stmts(p, m, body);
        },
        Stmt::Import { path, .. } => {
            indent_p(p, l);
            emit(p, "import ");
            emit(p, path.as_str());
            end_line_p(p);
        },
        Stmt::Spawn { body, .. } => {
            indent_p(p, l);
            emit(p, "spawn");
            end_line_p(p);
            format_stmts(p, m, body);
        },
        Stmt::Parallel { blocks, .. } => {
            indent_p(p, l);
            emit(p, "parallel");
            end_line_p(p);
            format_par(p, l, blocks);
        },
        Stmt::ChannelDecl { name, .. } => {
            indent_p(p, l);
            emit(p, "channel ");
            emit(p, name.as_str());
            end_line_p(p);
        },
        Stmt::Send { channel, value, .. } => {
            indent_p(p, l);
            emit(p, "send ");
            emit(p, channel.as_str());
            emit(p, " ");
            format_expr(p, l, value);
            end_line_p(p);
        },
        Stmt::Receive { channel, target, .. } => {
            indent_p(p, l);
            emit(p, "receive ");
            emit(p, channel.as_str());
            emit(p, " into ");
            emit(p, target.as_str());
            end_line_p(p);
        },
        _ => {},
    }
}

fn format_stmts(p: &mut Printer, l: usize, ss: &Vec<Stmt>)
    requires
        old(p).wf(),
    ensures
        final(p).wf(),
        final(p).out@ == fstmts(old(p).out@, l as nat, ss@),
    decreases ss, 0nat,
{
    let ghost start = p.out@;
    let mut i: usize = 0;
    while i < ss.len()
        invariant
            0 <= i <= ss@.len(),
            p.wf(),
            p.out@ == fstmts(start, l as nat, ss@.take(i as int)),
        decreases ss@.len() - i,
    {
        assert(decreases_to!(ss => ss@[i as int]));
        proof {
            assert(ss@.take(i + 1).drop_last() =~= ss@.take(i as int));
        }
        format_stmt(p, l, &ss[i]);
        i = i + 1;
    }
    proof {
        assert(ss@.take(ss@.len() as int) =~= ss@);
    }
}

fn format_par(p: &mut Printer, l: usize, bs: &Vec<Vec<Stmt>>)
    requires
        old(p).wf(),
    ensures
        final(p).wf(),
        final(p).out@ == fpar(old(p).out@, l as nat, bs@),
    decreases bs, 0nat,
{
    let ghost start = p.out@;
    let m = inc_level(l);
    let mut i: usize = 0;
    while i < bs.len()
        invariant
            0 <= i <= bs@.len(),
            m == inc(l as nat),
            p.wf(),
            p.out@ == fpar(start, l as nat, bs@.take(i as int)),
        decreases bs@.len() - i,
    {
        assert(decreases_to!(bs => bs@[i as int]));
        proof {
            assert(bs@.take(i + 1).drop_last() =~= bs@.take(i as int));
        }
        if i > 0 {
            indent_p(p, l);
            emit(p, "and");
            end_line_p(p);
        }
        format_stmts(p, m, &bs[i]);
        i = i + 1;
    }
    proof {
        assert(bs@.take(bs@.len() as int) =~= bs@);
    }
}

// ─── Declarations ───────────────────────────────────────────────────

/// Parameters as `name` or `name: Type`, separated by `, `.
pub open spec fn params_text(ps: Seq<(String, Option<TypeSyntax>)>) -> Seq<char>
    decreases ps.len(),
{
    if ps.len() == 0 {
        Seq::empty()
    } else {
        params_text(ps.drop_last()) + (if ps.len() > 1 { ", "@ } else { Seq::empty() }) + ps.last().0@
            + (match ps.last().1 {
                Some(t) => ": "@ + syntax_src(t@),
                None => Seq::empty(),
            })
    }
}

pub open spec fn return_text(r: Option<TypeSyntax>) -> Seq<char> {
    match r {
        Some(t) => " -> "@ + syntax_src(t@),
        None => Seq::empty(),
    }
}

/// `where` clauses as `T: Trait`, separated by `, `.
pub open spec fn wheres_text(ws: Seq<WhereClause>) -> Seq<char>
    decreases ws.len(),
{
    if ws.len() == 0 {
        Seq::empty()
    } else {
        wheres_text(ws.drop_last()) + (if ws.len() > 1 { ", "@ } else { Seq::empty() }) + ws.last().type_param@
            + ": "@ + ws.last().trait_name@
    }
}

/// `extern ` with the ABI in quotes, where the function is extern.
pub open spec fn extern_text(f: FunctionDecl) -> Seq<char> {
    if f.is_extern {
        "extern "@ + (match f.ffi_info {
            Some(info) => match info.abi {
                Some(abi) => "\""@ + abi@ + "\" "@,
                None => Seq::empty(),
            },
            None => Seq::empty(),
        })
    } else {
        Seq::empty()
    }
}

pub open spec fn type_params_text(f: FunctionDecl) -> Seq<char> {
    if f.type_params@.len() > 0 { "<"@ + joined_src(f.type_params@) + ">"@ } else { Seq::empty() }
}

pub open spec fn where_text(f: FunctionDecl) -> Seq<char> {
    if f.where_clauses@.len() > 0 { " where "@ + wheres_text(f.where_clauses@) } else { Seq::empty() }
}

/// A function's header: `extern` (with its ABI in quotes) where it is
/// one, its name, type parameters, parameters, result type and `where`
/// clauses.
pub open spec fn signature_text(f: FunctionDecl) -> Seq<char> {
    extern_text(f) + "function "@ + f.name@ + type_params_text(f) + "("@ + params_text(f.params@) + ")"@
        + return_text(f.return_type) + where_text(f)
}

/// A function at level `l`: its header line, then, unless it is extern,
/// its body a level deeper.
pub open spec fn ffunction(o: Seq<char>, l: nat, f: FunctionDecl) -> Seq<char> {
    let a = end_line(o + indent_text(l) + signature_text(f));
    if f.is_extern { a } else { fstmts(a, inc(l), f.body@) }
}

pub open spec fn ffunctions(o: Seq<char>, l: nat, fs: Seq<FunctionDecl>) -> Seq<char>
    decreases fs.len(),
{
    if fs.len() == 0 { o } else { ffunction(ffunctions(o, l, fs.drop_last()), l, fs.last()) }
}

pub open spec fn fmethods(o: Seq<char>, l: nat, ms: Seq<TraitMethod>) -> Seq<char>
    decreases ms.len(),
{
    if ms.len() == 0 {
        o
    } else {
        let m = ms.last();
        end_line(fmethods(o, l, ms.drop_last()) + indent_text(l) + "function "@ + m.name@ + "("@
            + params_text(m.params@) + ")"@ + return_text(m.return_type))
    }
}

/// A trait: its `trait` line, then its method signatures a level deeper.
pub open spec fn ftrait(o: Seq<char>, l: nat, t: TraitDecl) -> Seq<char> {
    fmethods(end_line(o + indent_text(l) + "trait "@ + t.name@), inc(l), t.methods@)
}

/// An impl block: its `impl Trait for Type` line, then its methods a
/// level deeper.
pub open spec fn fimpl(o: Seq<char>, l: nat, im: ImplBlock) -> Seq<char> {
    ffunctions(end_line(o + indent_text(l) + "impl "@ + im.trait_name@ + " for "@ + im.target_type@), inc(l),
        im.methods@)
}

pub open spec fn top_functions(o: Seq<char>, fs: Seq<FunctionDecl>) -> Seq<char>
    decreases fs.len(),
{
    if fs.len() == 0 {
        o
    } else {
        ffunction(top_functions(o, fs.drop_last()) + (if fs.len() > 1 { "\n"@ } else { Seq::empty() }), 0, fs.last())
    }
}

pub open spec fn top_traits(o: Seq<char>, ts: Seq<TraitDecl>) -> Seq<char>
    decreases ts.len(),
{
    if ts.len() == 0 { o } else { ftrait(top_traits(o, ts.drop_last()) + "\n"@, 0, ts.last()) }
}

pub open spec fn top_impls(o: Seq<char>, is: Seq<ImplBlock>) -> Seq<char>
    decreases is.len(),
{
    if is.len() == 0 { o } else { fimpl(top_impls(o, is.drop_last()) + "\n"@, 0, is.last()) }
}

/// A program's text: its functions, separated by empty lines, then each
/// trait and each impl block after an empty line.
pub open spec fn program_text(fs: Seq<FunctionDecl>, ts: Seq<TraitDecl>, is: Seq<ImplBlock>) -> Seq<char> {
    top_impls(top_traits(top_functions(Seq::empty(), fs), ts), is)
}

fn emit_params(p: &mut Printer, ps: &Vec<(String, Option<TypeSyntax>)>)
    requires
        old(p).wf(),
    ensures
        final(p).wf(),
        final(p).out@ == old(p).out@ + params_text(ps@),
{
    let ghost start = p.out@;
    let mut i: usize = 0;
    while i < ps.len()
        invariant
            0 <= i <= ps@.len(),
            p.wf(),
            p.out@ == start + params_text(ps@.take(i as int)),
        decreases ps@.len() - i,
    {
        proof {
            assert(ps@.take(i + 1).drop_last() =~= ps@.take(i as int));
        }
        let ghost before = p.out@;
        if i > 0 {
            emit(p, ", ");
        }
        emit(p, ps[i].0.as_str());
        match &ps[i].1 {
            Some(t) => {
                emit(p, ": ");
                emit_type(p, t);
            },
            None => {},
        }
        assert(p.out@ =~= before + ((if i > 0 { ", "@ } else { Seq::empty() }) + ps@[i as int].0@ + (match ps@[i as int].1 {
            Some(t) => ": "@ + syntax_src(t@),
            None => Seq::<char>::empty(),
        })));
        i = i + 1;
    }
    proof {
        assert(ps@.take(ps@.len() as int) =~= ps@);
    }
}

fn emit_return(p: &mut Printer, r: &Option<TypeSyntax>)
    requires
        old(p).wf(),
    ensures
        final(p).wf(),
        final(p).out@ == old(p).out@ + return_text(*r),
{
    match r {
        Some(t) => {
            let ghost before = p.out@;
            emit(p, " -> ");
            emit_type(p, t);
            assert(p.out@ =~= before + (" -> "@ + syntax_src(t@)));
        },
        None => {
            assert(p.out@ + Seq::<char>::empty() =~= p.out@);
        },
    }
}

fn emit_wheres(p: &mut Printer, ws: &Vec<WhereClause>)
    requires
        old(p).wf(),
    ensures
        final(p).wf(),
        final(p).out@ == old(p).out@ + wheres_text(ws@),
{
    let ghost start = p.out@;
    let mut i: usize = 0;
    while i < ws.len()
        invariant
            0 <= i <= ws@.len(),
            p.wf(),
            p.out@ == start + wheres_text(ws@.take(i as int)),
        decreases ws@.len() - i,
    {
        proof {
            assert(ws@.take(i + 1).drop_last() =~= ws@.take(i as int));
        }
        if i > 0 {
            emit(p, ", ");
        }
        emit(p, ws[i].type_param.as_str());
        emit(p, ": ");
        emit(p, ws[i].trait_name.as_str());
        i = i + 1;
    }
    proof {
        assert(ws@.take(ws@.len() as int) =~= ws@);
    }
}

fn emit_extern(p: &mut Printer, f: &FunctionDecl)
    requires
        old(p).wf(),
    ensures
        final(p).wf(),
        final(p).out@ == old(p).out@ + extern_text(*f),
{
    let ghost start = p.out@;
    if f.is_extern {
        emit(p, "extern ");
        match &f.ffi_info {
            Some(info) => match &info.abi {
                Some(abi) => {
                    emit(p, "\"");
                    emit(p, abi.as_str());
                    emit(p, "\" ");
                },
                None => {},
            },
            None => {},
        }
    }
    assert(p.out@ =~= start + extern_text(*f));
}

fn emit_type_params(p: &mut Printer, f: &FunctionDecl)
    requires
        old(p).wf(),
    ensures
        final(p).wf(),
        final(p).out@ == old(p).out@ + type_params_text(*f),
{
    let ghost start = p.out@;
    if f.type_params.len() > 0 {
        emit(p, "<");
        emit_joined(p, &f.type_params);
        emit(p, ">");
    }
    assert(p.out@ =~= start + type_params_text(*f));
}

fn emit_where(p: &mut Printer, f: &FunctionDecl)
    requires
        old(p).wf(),
    ensures
        final(p).wf(),
        final(p).out@ == old(p).out@ + where_text(*f),
{
    let ghost start = p.out@;
    if f.where_clauses.len() > 0 {
        emit(p, " where ");
        emit_wheres(p, &f.where_clauses);
    }
    assert(p.out@ =~= start + where_text(*f));
}

fn emit_signature(p: &mut Printer, f: &FunctionDecl)
    requires
        old(p).wf(),
    ensures
        final(p).wf(),
        final(p).out@ == old(p).out@ + signature_text(*f),
{
    let ghost start = p.out@;
    emit_extern(p, f);
    emit(p, "function ");
    emit(p, f.name.as_str());
    emit_type_params(p, f);
    emit(p, "(");
    emit_params(p, &f.params);
    emit(p, ")");
    emit_return(p, &f.return_type);
    emit_where(p, f);
    assert(p.out@ =~= start + signature_text(*f));
}

fn format_function(p: &mut Printer, l: usize, f: &FunctionDecl)
    requires
        old(p).wf(),
    ensures
        final(p).wf(),
        final(p).out@ == ffunction(old(p).out@, l as nat, *f),
{
    indent_p(p, l);
    emit_signature(p, f);
    end_line_p(p);
    if !f.is_extern {
        format_stmts(p, inc_level(l), &f.body);
    }
}

fn format_functions(p: &mut Printer, l: usize, fs: &Vec<FunctionDecl>)
    requires
        old(p).wf(),
    ensures
        final(p).wf(),
        final(p).out@ == ffunctions(old(p).out@, l as nat, fs@),
{
    let ghost start = p.out@;
    let mut i: usize = 0;
    while i < fs.len()
        invariant
            0 <= i <= fs@.len(),
            p.wf(),
            p.out@ == ffunctions(start, l as nat, fs@.take(i as int)),
        decreases fs@.len() - i,
    {
        proof {
            assert(fs@.take(i + 1).drop_last() =~= fs@.take(i as int));
        }
        format_function(p, l, &fs[i]);
        i = i + 1;
    }
    proof {
        assert(fs@.take(fs@.len() as int) =~= fs@);
    }
}

fn format_trait(p: &mut Printer, l: usize, t: &TraitDecl)
    requires
        old(p).wf(),
    ensures
        final(p).wf(),
        final(p).out@ == ftrait(old(p).out@, l as nat, *t),
{
    indent_p(p, l);
    emit(p, "trait ");
    emit(p, t.name.as_str());
    end_line_p(p);
    let m = inc_level(l);
    let ghost start = p.out@;
    let mut i: usize = 0;
    while i < t.methods.len()
        invariant
            0 <= i <= t.methods@.len(),
            m == inc(l as nat),
            p.wf(),
            p.out@ == fmethods(start, m as nat, t.methods@.take(i as int)),
        decreases t.methods@.len() - i,
    {
        proof {
            assert(t.methods@.take(i + 1).drop_last() =~= t.methods@.take(i as int));
        }
        let meth = &t.methods[i];
        indent_p(p, m);
        emit(p, "function ");
        emit(p, meth.name.as_str());
        emit(p, "(");
        emit_params(p, &meth.params);
        emit(p, ")");
        emit_return(p, &meth.return_type);
        end_line_p(p);
        i = i + 1;
    }
    proof {
        assert(t.methods@.take(t.methods@.len() as int) =~= t.methods@);
    }
}

fn format_impl(p: &mut Printer, l: usize, im: &ImplBlock)
    requires
        old(p).wf(),
    ensures
        final(p).wf(),
        final(p).out@ == fimpl(old(p).out@, l as nat, *im),
{
    indent_p(p, l);
    emit(p, "impl ");
    emit(p, im.trait_name.as_str());
    emit(p, " for ");
    emit(p, im.target_type.as_str());
    end_line_p(p);
    format_functions(p, inc_level(l), &im.methods);
}

/// Renders a parsed program (its functions, traits and impl blocks) as
/// source-shaped text.
pub fn format_program(functions: &[FunctionDecl], traits: &[TraitDecl], impls: &[ImplBlock]) -> (r: String)
    ensures
        r@ == program_text(functions@, traits@, impls@),
{
    let mut p = Printer { out: String::new(), nl: false };
    let mut i: usize = 0;
    while i < functions.len()
        invariant
            0 <= i <= functions@.len(),
            p.wf(),
            p.out@ == top_functions(Seq::empty(), functions@.take(i as int)),
        decreases functions@.len() - i,
    {
        proof {
            assert(functions@.take(i + 1).drop_last() =~= functions@.take(i as int));
        }
        if i > 0 {
            emit(&mut p, "\n");
        } else {
            assert(p.out@ + Seq::<char>::empty() =~= p.out@);
        }
        format_function(&mut p, 0, &functions[i]);
        i = i + 1;
    }
    proof {
        assert(functions@.take(functions@.len() as int) =~= functions@);
    }
    let ghost after_fns = p.out@;
    let mut j: usize = 0;
    while j < traits.len()
        invariant
            0 <= j <= traits@.len(),
            p.wf(),
            p.out@ == top_traits(after_fns, traits@.take(j as int)),
        decreases traits@.len() - j,
    {
        proof {
            assert(traits@.take(j + 1).drop_last() =~= traits@.take(j as int));
        }
        emit(&mut p, "\n");
        format_trait(&mut p, 0, &traits[j]);
        j = j + 1;
    }
    proof {
        assert(traits@.take(traits@.len() as int) =~= traits@);
    }
    let ghost after_traits = p.out@;
    let mut k: usize = 0;
    while k < impls.len()
        invariant
            0 <= k <= impls@.len(),
            p.wf(),
            p.out@ == top_impls(after_traits, impls@.take(k as int)),
        decreases impls@.len() - k,
    {
        proof {
            assert(impls@.take(k + 1).drop_last() =~= impls@.take(k as int));
        }
        emit(&mut p, "\n");
        format_impl(&mut p, 0, &impls[k]);
        k = k + 1;
    }
    proof {
        assert(impls@.take(impls@.len() as int) =~= impls@);
    }
    p.out
}

} // verus!
