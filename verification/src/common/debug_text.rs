use vstd::prelude::*;
use crate::common::chars::{chars_of, push_char};
use crate::common::text::{dec, digit_char, digit_str};
use crate::common::types::{Type, Ty, models, lemma_models};

verus! {

// ─── Text in the shape of derived `Debug` ───────────────────────────
//
// The library's diagnostics and listings show values the way `{:?}`
// shows them: unit variants by name, tuple variants as `Name(a, b)`,
// struct variants as `Name { field: a, other: b }`, lists as `[a, b]`,
// strings quoted.

/// The text standing for `c` inside a quoted string: a quote, a backslash
/// and the common control characters are escaped; any other character
/// stands for itself.
pub open spec fn escaped_char(c: char) -> Seq<char> {
    if c == '"' {
        "\\\""@
    } else if c == '\\' {
        "\\\\"@
    } else if c == '\n' {
        "\\n"@
    } else if c == '\r' {
        "\\r"@
    } else if c == '\t' {
        "\\t"@
    } else if c == '\0' {
        "\\0"@
    } else {
        seq![c]
    }
}

pub open spec fn escaped(s: Seq<char>) -> Seq<char>
    decreases s.len(),
{
    if s.len() == 0 {
        Seq::empty()
    } else {
        escaped(s.drop_last()) + escaped_char(s.last())
    }
}

/// `s` in double quotes, escaped.
pub open spec fn quoted(s: Seq<char>) -> Seq<char> {
    "\""@ + escaped(s) + "\""@
}

/// The decimal text of an integer, with a leading `-` when negative.
pub open spec fn int_text(i: int) -> Seq<char> {
    if i < 0 {
        "-"@ + dec((-i) as nat)
    } else {
        dec(i as nat)
    }
}

pub open spec fn bool_text(b: bool) -> Seq<char> {
    if b { "true"@ } else { "false"@ }
}

/// Appends `quoted(s@)`.
pub fn push_quoted(out: &mut String, s: &str)
    ensures
        final(out)@ == old(out)@ + quoted(s@),
{
    let ghost start = out@;
    out.append("\"");
    let cs = chars_of(s);
    let mut i: usize = 0;
    while i < cs.len()
        invariant
            0 <= i <= cs@.len(),
            cs@ == s@,
            out@ == start + "\""@ + escaped(cs@.take(i as int)),
        decreases cs@.len() - i,
    {
        let c = cs[i];
        proof {
            assert(cs@.take(i + 1).drop_last() =~= cs@.take(i as int));
            assert(cs@.take(i + 1).last() == c);
        }
        if c == '"' {
            out.append("\\\"");
        } else if c == '\\' {
            out.append("\\\\");
        } else if c == '\n' {
            out.append("\\n");
        } else if c == '\r' {
            out.append("\\r");
        } else if c == '\t' {
            out.append("\\t");
        } else if c == '\0' {
            out.append("\\0");
        } else {
            push_char(out, c);
        }
        i = i + 1;
    }
    proof {
        assert(cs@.take(cs@.len() as int) =~= s@);
    }
    out.append("\"");
}

/// Appends the decimal text of `n`.
pub fn push_u64(out: &mut String, n: u64)
    ensures
        final(out)@ == old(out)@ + dec(n as nat),
    decreases n,
{
    if n < 10 {
        out.append(digit_str(n as usize));
    } else {
        push_u64(out, n / 10);
        out.append(digit_str((n % 10) as usize));
        proof {
            assert(dec(n as nat) == dec((n / 10) as nat) + seq![digit_char((n % 10) as nat)]);
        }
    }
}

/// Appends the decimal text of `n`.
pub fn push_usize(out: &mut String, n: usize)
    ensures
        final(out)@ == old(out)@ + dec(n as nat),
    decreases n,
{
    if n < 10 {
        out.append(digit_str(n));
    } else {
        push_usize(out, n / 10);
        out.append(digit_str(n % 10));
    }
}

/// Appends the decimal text of `i`, signed.
pub fn push_i64(out: &mut String, i: i64)
    ensures
        final(out)@ == old(out)@ + int_text(i as int),
{
    if i < 0 {
        out.append("-");
        let m: u64 = if i == i64::MIN { 9223372036854775808u64 } else { (-i) as u64 };
        push_u64(out, m);
    } else {
        push_u64(out, i as u64);
    }
}

pub fn push_bool(out: &mut String, b: bool)
    ensures
        final(out)@ == old(out)@ + bool_text(b),
{
    if b {
        out.append("true");
    } else {
        out.append("false");
    }
}

// ─── Types ──────────────────────────────────────────────────────────

/// The text of a type, in the shape of its derived `Debug`.
pub open spec fn ty_debug(t: Ty) -> Seq<char>
    decreases t,
{
    match t {
        Ty::Int => "Int"@,
        Ty::Float => "Float"@,
        Ty::Str => "String"@,
        Ty::Bool => "Bool"@,
        Ty::Void => "Void"@,
        Ty::Ptr => "Ptr"@,
        Ty::Unknown => "Unknown"@,
        Ty::Never => "Never"@,
        Ty::TypeVar(n) => "TypeVar("@ + quoted(n) + ")"@,
        Ty::List(b) => "List("@ + ty_debug(*b) + ")"@,
        Ty::Array(b, n) => "Array("@ + ty_debug(*b) + ", "@ + dec(n) + ")"@,
        Ty::Tuple(ts) => "Tuple(["@ + tys_debug(ts) + "])"@,
        Ty::Opt(b) => "Option("@ + ty_debug(*b) + ")"@,
        Ty::Res(a, b) => "Result { ok: "@ + ty_debug(*a) + ", error: "@ + ty_debug(*b) + " }"@,
        Ty::Pointer(b) => "Pointer("@ + ty_debug(*b) + ")"@,
        Ty::Borrow(b) => "Borrow("@ + ty_debug(*b) + ")"@,
        Ty::MutBorrow(b) => "MutBorrow("@ + ty_debug(*b) + ")"@,
        Ty::Channel(b) => "Channel("@ + ty_debug(*b) + ")"@,
        Ty::Function(ps, r) => "Function { params: ["@ + tys_debug(ps) + "], return_type: "@ + ty_debug(*r) + " }"@,
        Ty::Generic(n, args) => "Generic { name: "@ + quoted(n) + ", args: ["@ + tys_debug(args) + "] }"@,
    }
}

/// The texts of `ts`, separated by `, `.
pub open spec fn tys_debug(ts: Seq<Ty>) -> Seq<char>
    decreases ts,
{
    if ts.len() == 0 {
        Seq::empty()
    } else {
        tys_debug(ts.drop_last()) + (if ts.len() > 1 { ", "@ } else { Seq::empty() }) + ty_debug(ts.last())
    }
}

/// Appends the text of `t`.
pub fn push_type(out: &mut String, t: &Type)
    ensures
        final(out)@ == old(out)@ + ty_debug(t@),
    decreases t,
{
    match t {
        Type::Int => out.append("Int"),
        Type::Float => out.append("Float"),
        Type::String => out.append("String"),
        Type::Bool => out.append("Bool"),
        Type::Void => out.append("Void"),
        Type::Ptr => out.append("Ptr"),
        Type::Unknown => out.append("Unknown"),
        Type::Never => out.append("Never"),
        Type::TypeVar(n) => {
            out.append("TypeVar(");
            push_quoted(out, n.as_str());
            out.append(")");
        },
        Type::List(b) => {
            out.append("List(");
            push_type(out, b);
            out.append(")");
        },
        Type::Array(b, n) => {
            out.append("Array(");
            push_type(out, b);
            out.append(", ");
            push_usize(out, *n);
            out.append(")");
        },
        Type::Tuple(ts) => {
            out.append("Tuple([");
            push_types(out, ts);
            out.append("])");
        },
        Type::Option(b) => {
            out.append("Option(");
            push_type(out, b);
            out.append(")");
        },
        Type::Result { ok, error } => {
            out.append("Result { ok: ");
            push_type(out, ok);
            out.append(", error: ");
            push_type(out, error);
            out.append(" }");
        },
        Type::Pointer(b) => {
            out.append("Pointer(");
            push_type(out, b);
            out.append(")");
        },
        Type::Borrow(b) => {
            out.append("Borrow(");
            push_type(out, b);
            out.append(")");
        },
        Type::MutBorrow(b) => {
            out.append("MutBorrow(");
            push_type(out, b);
            out.append(")");
        },
        Type::Channel(b) => {
            out.append("Channel(");
            push_type(out, b);
            out.append(")");
        },
        Type::Function { params, return_type } => {
            out.append("Function { params: [");
            push_types(out, params);
            out.append("], return_type: ");
            push_type(out, return_type);
            out.append(" }");
        },
        Type::Generic { name, args } => {
            out.append("Generic { name: ");
            push_quoted(out, name.as_str());
            out.append(", args: [");
            push_types(out, args);
            out.append("] }");
        },
    }
}

/// Appends the texts of `ts`, separated by `, `.
pub fn push_types(out: &mut String, ts: &Vec<Type>)
    ensures
        final(out)@ == old(out)@ + tys_debug(models(ts@)),
    decreases ts,
{
    let ghost start = out@;
    proof {
        lemma_models(ts@);
    }
    let mut i: usize = 0;
    while i < ts.len()
        invariant
            0 <= i <= ts@.len(),
            models(ts@).len() == ts@.len(),
            forall|j: int| 0 <= j < ts@.len() ==> #[trigger] models(ts@)[j] == ts@[j]@,
            out@ == start + tys_debug(models(ts@).take(i as int)),
        decreases ts@.len() - i,
    {
        assert(decreases_to!(ts => ts@[i as int]));
        proof {
            let m = models(ts@).take(i + 1);
            assert(m.drop_last() =~= models(ts@).take(i as int));
            assert(m.last() == ts@[i as int]@);
        }
        if i > 0 {
            out.append(", ");
        }
        push_type(out, &ts[i]);
        i = i + 1;
    }
    proof {
        assert(models(ts@).take(ts@.len() as int) =~= models(ts@));
    }
}

} // verus!
