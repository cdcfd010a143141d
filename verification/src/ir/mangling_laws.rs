//! Mangled names are injective: two distinct types never mangle to the
//! same string, and two distinct specializations (function name and type
//! arguments) never share a mangled name.
//!
//! The proof reads a mangled name as a sequence of underscore-free
//! tokens; names enter it escaped, so they carry no underscore. Every type yields a token sequence that begins with its
//! constructor tag and can be read back from the front unambiguously,
//! and joining underscore-free tokens with underscores loses nothing.

use vstd::prelude::*;
use crate::common::text::{dec, digit_char};
use crate::common::types::Ty;
use crate::ir::instantiation_plan::{tag, sep, mangle, mangle_seq, mangled_name_of, escape, escape_char};

verus! {

/// `s` contains no underscore.
pub open spec fn no_sep(s: Seq<char>) -> bool {
    forall|i: int| 0 <= i < s.len() ==> s[i] != '_'
}

/// The token sequence of a mangled type.
pub open spec fn tokens(t: Ty) -> Seq<Seq<char>>
    decreases t, 0nat,
{
    match t {
        Ty::TypeVar(n) => seq![tag(t), escape(n)],
        Ty::List(i) => seq![tag(t)] + tokens(*i),
        Ty::Array(i, n) => seq![tag(t)] + tokens(*i) + seq![dec(n)],
        Ty::Tuple(es) => seq![tag(t), dec(es.len())] + body(es),
        Ty::Opt(i) => seq![tag(t)] + tokens(*i),
        Ty::Res(a, b) => seq![tag(t)] + tokens(*a) + tokens(*b),
        Ty::Pointer(i) => seq![tag(t)] + tokens(*i),
        Ty::Borrow(i) => seq![tag(t)] + tokens(*i),
        Ty::MutBorrow(i) => seq![tag(t)] + tokens(*i),
        Ty::Channel(i) => seq![tag(t)] + tokens(*i),
        Ty::Function(ps, r) => seq![tag(t), dec(ps.len())] + body(ps) + tokens(*r),
        Ty::Generic(n, args) => seq![tag(t), escape(n), dec(args.len())] + body(args),
        _ => seq![tag(t)],
    }
}

/// The tokens of a list of types, one after another.
pub open spec fn toks_seq(ts: Seq<Ty>) -> Seq<Seq<char>>
    decreases ts, 0nat,
{
    if ts.len() == 0 {
        Seq::empty()
    } else {
        tokens(ts[0]) + toks_seq(ts.drop_first())
    }
}

/// The tokens of a component list: a single empty token for an empty list.
pub open spec fn body(ts: Seq<Ty>) -> Seq<Seq<char>>
    decreases ts, 1nat,
{
    if ts.len() == 0 {
        seq![Seq::<char>::empty()]
    } else {
        toks_seq(ts)
    }
}

/// Tokens joined by underscores.
pub open spec fn join(x: Seq<Seq<char>>) -> Seq<char>
    decreases x.len(),
{
    if x.len() == 0 {
        Seq::empty()
    } else if x.len() == 1 {
        x[0]
    } else {
        x[0] + sep() + join(x.drop_first())
    }
}

/// Every token in `x` is free of underscores.
pub open spec fn tokens_plain(x: Seq<Seq<char>>) -> bool {
    forall|i: int| 0 <= i < x.len() ==> no_sep(#[trigger] x[i])
}

/// A number naming the constructor of `t`.
pub open spec fn kind(t: Ty) -> nat {
    match t {
        Ty::Int => 0,
        Ty::Float => 1,
        Ty::Str => 2,
        Ty::Bool => 3,
        Ty::Void => 4,
        Ty::Ptr => 5,
        Ty::Unknown => 6,
        Ty::Never => 7,
        Ty::TypeVar(_) => 8,
        Ty::List(_) => 9,
        Ty::Array(_, _) => 10,
        Ty::Tuple(_) => 11,
        Ty::Opt(_) => 12,
        Ty::Res(_, _) => 13,
        Ty::Pointer(_) => 14,
        Ty::Borrow(_) => 15,
        Ty::MutBorrow(_) => 16,
        Ty::Channel(_) => 17,
        Ty::Function(_, _) => 18,
        Ty::Generic(_, _) => 19,
    }
}

// ─── Facts about tags, separators and numbers ───────────────────────

proof fn lemma_tag(t: Ty)
    ensures
        tag(t).len() >= 3,
        no_sep(tag(t)),
{
}

proof fn lemma_tag_injective(a: Ty, b: Ty)
    requires
        tag(a) == tag(b),
    ensures
        kind(a) == kind(b),
{
    assert(tag(a).len() == tag(b).len());
    assert(tag(a)[0] == tag(b)[0]);
}

proof fn lemma_digit_char(d: nat)
    ensures
        digit_char(d) != '_',
        d < 10 ==> digit_char(d) != '_',
{
}

proof fn lemma_digit_injective(a: nat, b: nat)
    requires
        a < 10,
        b < 10,
        digit_char(a) == digit_char(b),
    ensures
        a == b,
{
}

proof fn lemma_dec(n: nat)
    ensures
        dec(n).len() >= 1,
        no_sep(dec(n)),
        n >= 10 ==> dec(n).len() >= 2,
    decreases n,
{
    if n >= 10 {
        lemma_dec(n / 10);
        lemma_digit_char(n % 10);
        assert forall|i: int| 0 <= i < dec(n).len() implies dec(n)[i] != '_' by {
            if i < dec(n / 10).len() {
                assert(dec(n)[i] == dec(n / 10)[i]);
            }
        }
    } else {
        lemma_digit_char(n);
    }
}

proof fn lemma_dec_injective(a: nat, b: nat)
    requires
        dec(a) == dec(b),
    ensures
        a == b,
    decreases a,
{
    lemma_dec(a);
    lemma_dec(b);
    if a < 10 && b < 10 {
        assert(dec(a) == seq![digit_char(a)]);
        assert(dec(b) == seq![digit_char(b)]);
        assert(dec(a)[0] == dec(b)[0]);
        assert(seq![digit_char(a)][0] == digit_char(a));
        assert(seq![digit_char(b)][0] == digit_char(b));
        lemma_digit_injective(a, b);
    } else if a >= 10 && b >= 10 {
        lemma_dec(a / 10);
        lemma_dec(b / 10);
        assert(dec(a) == dec(a / 10) + seq![digit_char(a % 10)]);
        assert(dec(b) == dec(b / 10) + seq![digit_char(b % 10)]);
        assert(dec(a).last() == digit_char(a % 10));
        assert(dec(b).last() == digit_char(b % 10));
        lemma_digit_injective(a % 10, b % 10);
        assert(dec(a).drop_last() =~= dec(a / 10));
        assert(dec(b).drop_last() =~= dec(b / 10));
        lemma_dec_injective(a / 10, b / 10);
        assert(a == 10 * (a / 10) + a % 10);
        assert(b == 10 * (b / 10) + b % 10);
    } else {
        assert(dec(a).len() != dec(b).len());
    }
}

// ─── Joining tokens ─────────────────────────────────────────────────

proof fn lemma_join_concat(x: Seq<Seq<char>>, y: Seq<Seq<char>>)
    requires
        x.len() >= 1,
        y.len() >= 1,
    ensures
        join(x + y) == join(x) + sep() + join(y),
    decreases x.len(),
{
    if x.len() == 1 {
        assert((x + y).drop_first() =~= y);
    } else {
        assert((x + y).drop_first() =~= x.drop_first() + y);
        lemma_join_concat(x.drop_first(), y);
        assert(join(x + y) =~= x[0] + sep() + (join(x.drop_first()) + sep() + join(y)));
    }
}

/// Two underscore-free words followed by an underscore can only agree
/// if the words agree.
proof fn lemma_split_first(p: Seq<char>, a: Seq<char>, q: Seq<char>, b: Seq<char>)
    requires
        no_sep(p),
        no_sep(q),
        p + sep() + a == q + sep() + b,
    ensures
        p == q,
        a == b,
{
    let l = p + sep() + a;
    let r = q + sep() + b;
    if p.len() < q.len() {
        assert(l[p.len() as int] == '_');
        assert(r[p.len() as int] == q[p.len() as int]);
    } else if q.len() < p.len() {
        assert(r[q.len() as int] == '_');
        assert(l[q.len() as int] == p[q.len() as int]);
    } else {
        assert(p =~= l.take(p.len() as int));
        assert(q =~= r.take(q.len() as int));
        assert(a =~= l.skip(p.len() as int + 1));
        assert(b =~= r.skip(q.len() as int + 1));
    }
}

proof fn lemma_join_has_sep(x: Seq<Seq<char>>)
    requires
        x.len() >= 2,
    ensures
        join(x) == x[0] + sep() + join(x.drop_first()),
        join(x)[x[0].len() as int] == '_',
{
}

proof fn lemma_join_plain(x: Seq<Seq<char>>)
    requires
        x.len() == 1,
        tokens_plain(x),
    ensures
        no_sep(join(x)),
{
    assert(no_sep(x[0]));
}

/// Joining non-empty sequences of underscore-free tokens is injective.
pub proof fn lemma_join_injective(x: Seq<Seq<char>>, y: Seq<Seq<char>>)
    requires
        x.len() >= 1,
        y.len() >= 1,
        tokens_plain(x),
        tokens_plain(y),
        join(x) == join(y),
    ensures
        x == y,
    decreases x.len(),
{
    if x.len() == 1 && y.len() == 1 {
        assert(x =~= y);
    } else if x.len() == 1 {
        lemma_join_plain(x);
        lemma_join_has_sep(y);
        assert(no_sep(y[0]));
        assert(join(y)[y[0].len() as int] == '_');
    } else if y.len() == 1 {
        lemma_join_plain(y);
        lemma_join_has_sep(x);
        assert(no_sep(x[0]));
        assert(join(x)[x[0].len() as int] == '_');
    } else {
        assert(no_sep(x[0]));
        assert(no_sep(y[0]));
        lemma_split_first(x[0], join(x.drop_first()), y[0], join(y.drop_first()));
        assert(tokens_plain(x.drop_first())) by {
            assert forall|i: int| 0 <= i < x.drop_first().len() implies no_sep(#[trigger] x.drop_first()[i]) by {
                assert(x.drop_first()[i] == x[i + 1]);
            }
        }
        assert(tokens_plain(y.drop_first())) by {
            assert forall|i: int| 0 <= i < y.drop_first().len() implies no_sep(#[trigger] y.drop_first()[i]) by {
                assert(y.drop_first()[i] == y[i + 1]);
            }
        }
        lemma_join_injective(x.drop_first(), y.drop_first());
        assert(x =~= seq![x[0]] + x.drop_first());
        assert(y =~= seq![y[0]] + y.drop_first());
    }
}


proof fn lemma_tokens_plain_concat(x: Seq<Seq<char>>, y: Seq<Seq<char>>)
    requires
        tokens_plain(x),
        tokens_plain(y),
    ensures
        tokens_plain(x + y),
{
    assert forall|i: int| 0 <= i < (x + y).len() implies no_sep(#[trigger] (x + y)[i]) by {
        if i < x.len() {
            assert((x + y)[i] == x[i]);
        } else {
            assert((x + y)[i] == y[i - x.len()]);
        }
    }
}

/// `join` of a single token followed by more tokens.
proof fn lemma_join_cons(a: Seq<char>, x: Seq<Seq<char>>)
    requires
        x.len() >= 1,
    ensures
        join(seq![a] + x) == a + sep() + join(x),
{
    lemma_join_concat(seq![a], x);
}

proof fn lemma_mangle_seq_front(ts: Seq<Ty>)
    requires
        ts.len() >= 2,
    ensures
        mangle_seq(ts) == mangle(ts[0]) + sep() + mangle_seq(ts.drop_first()),
    decreases ts.len(),
{
    if ts.len() == 2 {
        assert(ts.drop_last().len() == 1);
        assert(ts.drop_first().len() == 1);
        assert(ts.drop_first()[0] == ts.last());
        assert(ts.drop_last()[0] == ts[0]);
        assert(mangle_seq(ts.drop_last()) == mangle(ts[0]));
        assert(mangle_seq(ts.drop_first()) == mangle(ts.last()));
        assert(mangle_seq(ts) =~= mangle(ts[0]) + sep() + mangle_seq(ts.drop_first()));
    } else {
        let init = ts.drop_last();
        let rest = ts.drop_first();
        lemma_mangle_seq_front(init);
        assert(init.drop_first() =~= rest.drop_last());
        assert(rest.last() == ts.last());
        assert(init[0] == ts[0]);
        assert(mangle_seq(ts) =~= mangle(ts[0]) + sep() + mangle_seq(rest));
    }
}

#[verifier::rlimit(60)]
#[verifier::spinoff_prover]
proof fn lemma_tokens(t: Ty)
    ensures
        tokens(t).len() >= 1,
        tokens(t)[0] == tag(t),
        join(tokens(t)) == mangle(t),
        tokens_plain(tokens(t)),
    decreases t, 0nat,
{
    lemma_tag(t);
    let tg = seq![tag(t)];
    assert(tokens_plain(tg)) by {
        assert(tg[0] == tag(t));
    }
    match t {
        Ty::TypeVar(n0) => {
            let n = escape(n0);
            lemma_escape_plain(n0);
            assert(tokens(t) =~= seq![tag(t)] + seq![n]);
            lemma_join_cons(tag(t), seq![n]);
            {
                assert(tokens_plain(seq![n])) by {
                    assert(seq![n][0] == n);
                }
                lemma_tokens_plain_concat(tg, seq![n]);
            }
        },
        Ty::List(i) => {
            lemma_tokens(*i);
            lemma_join_cons(tag(t), tokens(*i));
            {
                lemma_tokens_plain_concat(tg, tokens(*i));
            }
        },
        Ty::Opt(i) => {
            lemma_tokens(*i);
            lemma_join_cons(tag(t), tokens(*i));
            {
                lemma_tokens_plain_concat(tg, tokens(*i));
            }
        },
        Ty::Pointer(i) => {
            lemma_tokens(*i);
            lemma_join_cons(tag(t), tokens(*i));
            {
                lemma_tokens_plain_concat(tg, tokens(*i));
            }
        },
        Ty::Borrow(i) => {
            lemma_tokens(*i);
            lemma_join_cons(tag(t), tokens(*i));
            {
                lemma_tokens_plain_concat(tg, tokens(*i));
            }
        },
        Ty::MutBorrow(i) => {
            lemma_tokens(*i);
            lemma_join_cons(tag(t), tokens(*i));
            {
                lemma_tokens_plain_concat(tg, tokens(*i));
            }
        },
        Ty::Channel(i) => {
            lemma_tokens(*i);
            lemma_join_cons(tag(t), tokens(*i));
            {
                lemma_tokens_plain_concat(tg, tokens(*i));
            }
        },
        Ty::Array(i, n) => {
            lemma_tokens(*i);
            lemma_dec(n);
            let d = seq![dec(n)];
            assert(join(d) == dec(n));
            lemma_join_concat(tokens(*i), d);
            assert(tokens(t) =~= tg + (tokens(*i) + d));
            lemma_join_cons(tag(t), tokens(*i) + d);
            assert(join(tokens(t)) =~= mangle(t));
            {
                assert(tokens_plain(d)) by {
                    assert(d[0] == dec(n));
                }
                lemma_tokens_plain_concat(tokens(*i), d);
                lemma_tokens_plain_concat(tg, tokens(*i) + d);
            }
        },
        Ty::Res(a, b) => {
            lemma_tokens(*a);
            lemma_tokens(*b);
            lemma_join_concat(tokens(*a), tokens(*b));
            assert(tokens(t) =~= tg + (tokens(*a) + tokens(*b)));
            lemma_join_cons(tag(t), tokens(*a) + tokens(*b));
            assert(join(tokens(t)) =~= mangle(t));
            {
                lemma_tokens_plain_concat(tokens(*a), tokens(*b));
                lemma_tokens_plain_concat(tg, tokens(*a) + tokens(*b));
            }
        },
        Ty::Tuple(es) => {
            lemma_body(es);
            lemma_dec(es.len());
            let d = seq![dec(es.len())];
            assert(join(d) == dec(es.len()));
            lemma_join_cons(dec(es.len()), body(es));
            assert(tokens(t) =~= tg + (d + body(es)));
            lemma_join_cons(tag(t), d + body(es));
            assert(join(tokens(t)) =~= mangle(t));
            {
                assert(tokens_plain(d)) by {
                    assert(d[0] == dec(es.len()));
                }
                lemma_tokens_plain_concat(d, body(es));
                lemma_tokens_plain_concat(tg, d + body(es));
            }
        },
        Ty::Function(ps, r) => {
            lemma_body(ps);
            lemma_tokens(*r);
            lemma_dec(ps.len());
            let d = seq![dec(ps.len())];
            lemma_join_concat(body(ps), tokens(*r));
            lemma_join_cons(dec(ps.len()), body(ps) + tokens(*r));
            assert(tokens(t) =~= tg + (d + (body(ps) + tokens(*r))));
            assert(d + (body(ps) + tokens(*r)) =~= seq![dec(ps.len())] + (body(ps) + tokens(*r)));
            lemma_join_cons(tag(t), d + (body(ps) + tokens(*r)));
            assert(join(tokens(t)) =~= mangle(t));
            {
                assert(tokens_plain(d)) by {
                    assert(d[0] == dec(ps.len()));
                }
                lemma_tokens_plain_concat(body(ps), tokens(*r));
                lemma_tokens_plain_concat(d, body(ps) + tokens(*r));
                lemma_tokens_plain_concat(tg, d + (body(ps) + tokens(*r)));
            }
        },
        Ty::Generic(n0, args) => {
            let n = escape(n0);
            lemma_escape_plain(n0);
            lemma_body(args);
            lemma_dec(args.len());
            let d = seq![dec(args.len())];
            let nm = seq![n];
            lemma_join_cons(dec(args.len()), body(args));
            lemma_join_cons(n, d + body(args));
            assert(tokens(t) =~= tg + (nm + (d + body(args))));
            assert(nm + (d + body(args)) =~= seq![n] + (d + body(args)));
            lemma_join_cons(tag(t), nm + (d + body(args)));
            assert(join(tokens(t)) =~= mangle(t));
            {
                assert(tokens_plain(d)) by {
                    assert(d[0] == dec(args.len()));
                }
                assert(tokens_plain(nm)) by {
                    assert(nm[0] == n);
                }
                lemma_tokens_plain_concat(d, body(args));
                lemma_tokens_plain_concat(nm, d + body(args));
                lemma_tokens_plain_concat(tg, nm + (d + body(args)));
            }
        },
        _ => {},
    }
}

proof fn lemma_toks_seq(ts: Seq<Ty>)
    ensures
        toks_seq(ts).len() >= ts.len(),
        ts.len() > 0 ==> toks_seq(ts)[0] == tag(ts[0]),
        ts.len() > 0 ==> join(toks_seq(ts)) == mangle_seq(ts),
        tokens_plain(toks_seq(ts)),
    decreases ts, 0nat,
{
    if ts.len() == 0 {
        assert(tokens_plain(toks_seq(ts)));
    } else {
        let rest = ts.drop_first();
        lemma_tokens(ts[0]);
        lemma_toks_seq(rest);
        if rest.len() == 0 {
            assert(toks_seq(ts) =~= tokens(ts[0]));
        } else {
            lemma_join_concat(tokens(ts[0]), toks_seq(rest));
            lemma_mangle_seq_front(ts);
        }
        {
            lemma_tokens_plain_concat(tokens(ts[0]), toks_seq(rest));
        }
    }
}

proof fn lemma_body(ts: Seq<Ty>)
    ensures
        body(ts).len() >= 1,
        join(body(ts)) == mangle_seq(ts),
        tokens_plain(body(ts)),
    decreases ts, 1nat,
{
    lemma_toks_seq(ts);
    if ts.len() == 0 {
        let b = body(ts);
        assert(b[0] == Seq::<char>::empty());
        assert(join(b) =~= mangle_seq(ts));
        assert(tokens_plain(b));
    }
}


proof fn lemma_cons_eq<A>(h1: A, x: Seq<A>, h2: A, y: Seq<A>)
    requires
        seq![h1] + x == seq![h2] + y,
    ensures
        h1 == h2,
        x == y,
{
    assert((seq![h1] + x)[0] == h1);
    assert((seq![h2] + y)[0] == h2);
    assert((seq![h1] + x).drop_first() =~= x);
    assert((seq![h2] + y).drop_first() =~= y);
}

/// Reading a type back from the front of its token sequence is
/// deterministic: the tokens of a type are never a proper prefix of
/// the tokens of another.
#[verifier::rlimit(100)]
#[verifier::spinoff_prover]
proof fn lemma_decode(a: Ty, b: Ty, r1: Seq<Seq<char>>, r2: Seq<Seq<char>>)
    requires
        tokens(a) + r1 == tokens(b) + r2,
    ensures
        a == b,
        r1 == r2,
    decreases a,
{
    lemma_tokens(a);
    lemma_tokens(b);
    assert((tokens(a) + r1)[0] == tag(a));
    assert((tokens(b) + r2)[0] == tag(b));
    lemma_tag_injective(a, b);
    match a {
        Ty::TypeVar(n0) => {
            let n = escape(n0);
            let m = escape(b->TypeVar_0);
            assert(tokens(a) + r1 =~= seq![tag(a)] + (seq![n] + r1));
            assert(tokens(b) + r2 =~= seq![tag(b)] + (seq![m] + r2));
            lemma_cons_eq(tag(a), seq![n] + r1, tag(b), seq![m] + r2);
            lemma_cons_eq(n, r1, m, r2);
            lemma_escape_injective(n0, b->TypeVar_0);
        },
        Ty::List(i) => {
            let j = b->List_0;
            assert(tokens(a) + r1 =~= seq![tag(a)] + (tokens(*i) + r1));
            assert(tokens(b) + r2 =~= seq![tag(b)] + (tokens(*j) + r2));
            lemma_cons_eq(tag(a), tokens(*i) + r1, tag(b), tokens(*j) + r2);
            lemma_decode(*i, *j, r1, r2);
        },
        Ty::Opt(i) => {
            let j = b->Opt_0;
            assert(tokens(a) + r1 =~= seq![tag(a)] + (tokens(*i) + r1));
            assert(tokens(b) + r2 =~= seq![tag(b)] + (tokens(*j) + r2));
            lemma_cons_eq(tag(a), tokens(*i) + r1, tag(b), tokens(*j) + r2);
            lemma_decode(*i, *j, r1, r2);
        },
        Ty::Pointer(i) => {
            let j = b->Pointer_0;
            assert(tokens(a) + r1 =~= seq![tag(a)] + (tokens(*i) + r1));
            assert(tokens(b) + r2 =~= seq![tag(b)] + (tokens(*j) + r2));
            lemma_cons_eq(tag(a), tokens(*i) + r1, tag(b), tokens(*j) + r2);
            lemma_decode(*i, *j, r1, r2);
        },
        Ty::Borrow(i) => {
            let j = b->Borrow_0;
            assert(tokens(a) + r1 =~= seq![tag(a)] + (tokens(*i) + r1));
            assert(tokens(b) + r2 =~= seq![tag(b)] + (tokens(*j) + r2));
            lemma_cons_eq(tag(a), tokens(*i) + r1, tag(b), tokens(*j) + r2);
            lemma_decode(*i, *j, r1, r2);
        },
        Ty::MutBorrow(i) => {
            let j = b->MutBorrow_0;
            assert(tokens(a) + r1 =~= seq![tag(a)] + (tokens(*i) + r1));
            assert(tokens(b) + r2 =~= seq![tag(b)] + (tokens(*j) + r2));
            lemma_cons_eq(tag(a), tokens(*i) + r1, tag(b), tokens(*j) + r2);
            lemma_decode(*i, *j, r1, r2);
        },
        Ty::Channel(i) => {
            let j = b->Channel_0;
            assert(tokens(a) + r1 =~= seq![tag(a)] + (tokens(*i) + r1));
            assert(tokens(b) + r2 =~= seq![tag(b)] + (tokens(*j) + r2));
            lemma_cons_eq(tag(a), tokens(*i) + r1, tag(b), tokens(*j) + r2);
            lemma_decode(*i, *j, r1, r2);
        },
        Ty::Array(i, n) => {
            let j = b->Array_0;
            let m = b->Array_1;
            assert(tokens(a) + r1 =~= seq![tag(a)] + (tokens(*i) + (seq![dec(n)] + r1)));
            assert(tokens(b) + r2 =~= seq![tag(b)] + (tokens(*j) + (seq![dec(m)] + r2)));
            lemma_cons_eq(tag(a), tokens(*i) + (seq![dec(n)] + r1), tag(b), tokens(*j) + (seq![dec(m)] + r2));
            lemma_decode(*i, *j, seq![dec(n)] + r1, seq![dec(m)] + r2);
            lemma_cons_eq(dec(n), r1, dec(m), r2);
            lemma_dec_injective(n, m);
        },
        Ty::Res(x1, x2) => {
            let y1 = b->Res_0;
            let y2 = b->Res_1;
            assert(tokens(a) + r1 =~= seq![tag(a)] + (tokens(*x1) + (tokens(*x2) + r1)));
            assert(tokens(b) + r2 =~= seq![tag(b)] + (tokens(*y1) + (tokens(*y2) + r2)));
            lemma_cons_eq(tag(a), tokens(*x1) + (tokens(*x2) + r1), tag(b), tokens(*y1) + (tokens(*y2) + r2));
            lemma_decode(*x1, *y1, tokens(*x2) + r1, tokens(*y2) + r2);
            lemma_decode(*x2, *y2, r1, r2);
        },
        Ty::Tuple(es) => {
            let fs = b->Tuple_0;
            assert(tokens(a) + r1 =~= seq![tag(a)] + (seq![dec(es.len())] + (body(es) + r1)));
            assert(tokens(b) + r2 =~= seq![tag(b)] + (seq![dec(fs.len())] + (body(fs) + r2)));
            lemma_cons_eq(tag(a), seq![dec(es.len())] + (body(es) + r1), tag(b), seq![dec(fs.len())] + (body(fs) + r2));
            lemma_cons_eq(dec(es.len()), body(es) + r1, dec(fs.len()), body(fs) + r2);
            lemma_dec_injective(es.len(), fs.len());
            lemma_decode_body(es, fs, r1, r2);
        },
        Ty::Function(ps, r) => {
            let qs = b->Function_0;
            let s = b->Function_1;
            assert(tokens(a) + r1 =~= seq![tag(a)] + (seq![dec(ps.len())] + (body(ps) + (tokens(*r) + r1))));
            assert(tokens(b) + r2 =~= seq![tag(b)] + (seq![dec(qs.len())] + (body(qs) + (tokens(*s) + r2))));
            lemma_cons_eq(tag(a), seq![dec(ps.len())] + (body(ps) + (tokens(*r) + r1)), tag(b), seq![dec(qs.len())] + (body(qs) + (tokens(*s) + r2)));
            lemma_cons_eq(dec(ps.len()), body(ps) + (tokens(*r) + r1), dec(qs.len()), body(qs) + (tokens(*s) + r2));
            lemma_dec_injective(ps.len(), qs.len());
            lemma_decode_body(ps, qs, tokens(*r) + r1, tokens(*s) + r2);
            lemma_decode(*r, *s, r1, r2);
        },
        Ty::Generic(n0, args) => {
            let n = escape(n0);
            let m = escape(b->Generic_0);
            let brgs = b->Generic_1;
            assert(tokens(a) + r1 =~= seq![tag(a)] + (seq![n] + (seq![dec(args.len())] + (body(args) + r1))));
            assert(tokens(b) + r2 =~= seq![tag(b)] + (seq![m] + (seq![dec(brgs.len())] + (body(brgs) + r2))));
            lemma_cons_eq(tag(a), seq![n] + (seq![dec(args.len())] + (body(args) + r1)), tag(b), seq![m] + (seq![dec(brgs.len())] + (body(brgs) + r2)));
            lemma_cons_eq(n, seq![dec(args.len())] + (body(args) + r1), m, seq![dec(brgs.len())] + (body(brgs) + r2));
            lemma_cons_eq(dec(args.len()), body(args) + r1, dec(brgs.len()), body(brgs) + r2);
            lemma_dec_injective(args.len(), brgs.len());
            lemma_decode_body(args, brgs, r1, r2);
            lemma_escape_injective(n0, b->Generic_0);
        },
        _ => {
            assert(tokens(a) + r1 =~= seq![tag(a)] + r1);
            assert(tokens(b) + r2 =~= seq![tag(b)] + r2);
            lemma_cons_eq(tag(a), r1, tag(b), r2);
        },
    }
}

/// Reading a component list of known length back from its tokens.
proof fn lemma_decode_body(xs: Seq<Ty>, ys: Seq<Ty>, r1: Seq<Seq<char>>, r2: Seq<Seq<char>>)
    requires
        xs.len() == ys.len(),
        body(xs) + r1 == body(ys) + r2,
    ensures
        xs == ys,
        r1 == r2,
    decreases xs, 1nat,
{
    if xs.len() == 0 {
        assert(body(xs) + r1 =~= seq![Seq::<char>::empty()] + r1);
        assert(body(ys) + r2 =~= seq![Seq::<char>::empty()] + r2);
        lemma_cons_eq(Seq::<char>::empty(), r1, Seq::<char>::empty(), r2);
        assert(xs =~= ys);
    } else {
        lemma_decode_seq(xs, ys, r1, r2);
    }
}

proof fn lemma_decode_seq(xs: Seq<Ty>, ys: Seq<Ty>, r1: Seq<Seq<char>>, r2: Seq<Seq<char>>)
    requires
        xs.len() == ys.len(),
        toks_seq(xs) + r1 == toks_seq(ys) + r2,
    ensures
        xs == ys,
        r1 == r2,
    decreases xs, 0nat,
{
    if xs.len() == 0 {
        assert(toks_seq(xs) + r1 =~= r1);
        assert(toks_seq(ys) + r2 =~= r2);
        assert(xs =~= ys);
    } else {
        let xr = xs.drop_first();
        let yr = ys.drop_first();
        assert(toks_seq(xs) + r1 =~= tokens(xs[0]) + (toks_seq(xr) + r1));
        assert(toks_seq(ys) + r2 =~= tokens(ys[0]) + (toks_seq(yr) + r2));
        lemma_decode(xs[0], ys[0], toks_seq(xr) + r1, toks_seq(yr) + r2);
        lemma_decode_seq(xr, yr, r1, r2);
        assert(xs =~= seq![xs[0]] + xr);
        assert(ys =~= seq![ys[0]] + yr);
    }
}

/// Reading a list of types of unknown length back from its tokens.
proof fn lemma_decode_all(xs: Seq<Ty>, ys: Seq<Ty>)
    requires
        toks_seq(xs) == toks_seq(ys),
    ensures
        xs == ys,
    decreases xs.len(),
{
    lemma_toks_seq(xs);
    lemma_toks_seq(ys);
    if xs.len() == 0 || ys.len() == 0 {
        assert(xs =~= ys);
    } else {
        let xr = xs.drop_first();
        let yr = ys.drop_first();
        assert(toks_seq(xs) =~= tokens(xs[0]) + toks_seq(xr));
        assert(toks_seq(ys) =~= tokens(ys[0]) + toks_seq(yr));
        lemma_decode(xs[0], ys[0], toks_seq(xr), toks_seq(yr));
        lemma_decode_all(xr, yr);
        assert(xs =~= seq![xs[0]] + xr);
        assert(ys =~= seq![ys[0]] + yr);
    }
}

// ─── The laws ───────────────────────────────────────────────────────

/// `mangled_type_name` is injective: two types never share a mangled
/// name.
pub proof fn lemma_mangle_injective(a: Ty, b: Ty)
    requires
        mangle(a) == mangle(b),
    ensures
        a == b,
{
    lemma_tokens(a);
    lemma_tokens(b);
    lemma_join_injective(tokens(a), tokens(b));
    assert(tokens(a) + Seq::<Seq<char>>::empty() =~= tokens(a));
    assert(tokens(b) + Seq::<Seq<char>>::empty() =~= tokens(b));
    lemma_decode(a, b, Seq::empty(), Seq::empty());
}

/// `mangled_name` is injective: a function name and a list of type
/// arguments are determined by their mangled name.
pub proof fn lemma_mangled_name_injective(f1: Seq<char>, args1: Seq<Ty>, f2: Seq<char>, args2: Seq<Ty>)
    requires
        mangled_name_of(f1, args1) == mangled_name_of(f2, args2),
    ensures
        f1 == f2,
        args1 == args2,
{
    let e1 = escape(f1);
    let e2 = escape(f2);
    lemma_escape_plain(f1);
    lemma_escape_plain(f2);
    lemma_body(args1);
    lemma_body(args2);
    let x = seq![e1] + body(args1);
    let y = seq![e2] + body(args2);
    lemma_join_cons(e1, body(args1));
    lemma_join_cons(e2, body(args2));
    assert(tokens_plain(seq![e1])) by {
        assert(seq![e1][0] == e1);
    }
    assert(tokens_plain(seq![e2])) by {
        assert(seq![e2][0] == e2);
    }
    lemma_tokens_plain_concat(seq![e1], body(args1));
    lemma_tokens_plain_concat(seq![e2], body(args2));
    lemma_join_injective(x, y);
    lemma_cons_eq(e1, body(args1), e2, body(args2));
    lemma_escape_injective(f1, f2);
    lemma_toks_seq(args1);
    lemma_toks_seq(args2);
    if args1.len() == 0 && args2.len() == 0 {
        assert(args1 =~= args2);
    } else if args1.len() == 0 {
        lemma_tag(args2[0]);
        assert(body(args1)[0].len() == 0);
        assert(body(args2)[0] == tag(args2[0]));
    } else if args2.len() == 0 {
        lemma_tag(args1[0]);
        assert(body(args2)[0].len() == 0);
        assert(body(args1)[0] == tag(args1[0]));
    } else {
        lemma_decode_all(args1, args2);
    }
}

// ─── Escaping names ─────────────────────────────────────────────────

/// An escaped name carries no underscore.
proof fn lemma_escape_plain(n: Seq<char>)
    ensures
        no_sep(escape(n)),
    decreases n.len(),
{
    if n.len() > 0 {
        lemma_escape_plain(n.drop_first());
        let e = escape_char(n[0]);
        assert(escape(n) == e + escape(n.drop_first()));
        assert forall|i: int| 0 <= i < escape(n).len() implies escape(n)[i] != '_' by {
            if i >= e.len() {
                assert(escape(n)[i] == escape(n.drop_first())[i - e.len()]);
            }
        }
    }
}

/// Escaping is injective: the escaped form of a name determines it.
proof fn lemma_escape_injective(a: Seq<char>, b: Seq<char>)
    requires
        escape(a) == escape(b),
    ensures
        a == b,
    decreases a.len(),
{
    if a.len() == 0 || b.len() == 0 {
        if a.len() > 0 {
            assert(escape(a).len() >= 1);
        }
        if b.len() > 0 {
            assert(escape(b).len() >= 1);
        }
        assert(a =~= b);
    } else {
        let ea = escape_char(a[0]);
        let eb = escape_char(b[0]);
        let ra = escape(a.drop_first());
        let rb = escape(b.drop_first());
        assert(escape(a) == ea + ra);
        assert(escape(b) == eb + rb);
        assert((ea + ra)[0] == ea[0]);
        assert((eb + rb)[0] == eb[0]);
        if ea.len() == 2 && eb.len() == 2 {
            assert((ea + ra)[1] == ea[1]);
            assert((eb + rb)[1] == eb[1]);
            assert(a[0] == b[0]);
        } else if ea.len() == 1 && eb.len() == 1 {
            assert(a[0] == b[0]);
        } else if ea.len() == 2 {
            assert(ea[0] == '$');
            assert(eb[0] == b[0]);
            assert(false);
        } else {
            assert(eb[0] == '$');
            assert(ea[0] == a[0]);
            assert(false);
        }
        assert(ra =~= (ea + ra).skip(ea.len() as int));
        assert(rb =~= (eb + rb).skip(eb.len() as int));
        lemma_escape_injective(a.drop_first(), b.drop_first());
        assert(a =~= seq![a[0]] + a.drop_first());
        assert(b =~= seq![b[0]] + b.drop_first());
    }
}

} // verus!
