use vstd::prelude::*;
use super::{Token, Lexeme};
use super::ident::{word_end, lemma_word_end, word_lexeme};
use super::literal::{string_scan, lemma_string_scan_advances, number_at, lemma_number_end};
use super::operator::{operator_at, lemma_operator_advances};
use super::decl::{decl_tokens, sig_tokens, space_end, punct};
use super::operator::char_at;
use super::expr::{expr_tokens, line_tokens};
use super::layout::{layout, lex, lines_of, closing, dedents, placed, blank, lead, has_char, indent_width, pop_above,
    lemma_pop_above_len, code_of, depth_after};
use crate::common::text::is_ws;
use crate::common::chars::{alphabetic, numeric, utf8_len, utf8_total};

verus! {

/// The tokens that stand for the layout rather than for text.
pub open spec fn structural(l: Lexeme) -> bool {
    l == Lexeme::Plain(Token::Indent) || l == Lexeme::Plain(Token::Dedent) || l == Lexeme::Plain(Token::Eof)
}

/// How many of the tokens `v` are `l`.
pub open spec fn count_of(v: Seq<(Lexeme, int, int)>, l: Lexeme) -> nat
    decreases v.len(),
{
    if v.len() == 0 {
        0
    } else {
        count_of(v.drop_last(), l) + if v.last().0 == l { 1nat } else { 0nat }
    }
}

pub open spec fn no_structural(toks: Seq<(Lexeme, int)>) -> bool {
    forall|k: int| 0 <= k < toks.len() ==> !structural(#[trigger] toks[k].0)
}

proof fn lemma_count_single(x: (Lexeme, int, int), l: Lexeme)
    ensures
        count_of(seq![x], l) == if x.0 == l { 1nat } else { 0nat },
{
    assert(seq![x].drop_last() =~= Seq::<(Lexeme, int, int)>::empty());
    assert(count_of(Seq::<(Lexeme, int, int)>::empty(), l) == 0);
}

proof fn lemma_count_concat(a: Seq<(Lexeme, int, int)>, b: Seq<(Lexeme, int, int)>, l: Lexeme)
    ensures
        count_of(a + b, l) == count_of(a, l) + count_of(b, l),
    decreases b.len(),
{
    if b.len() == 0 {
        assert(a + b =~= a);
    } else {
        assert((a + b).drop_last() =~= a + b.drop_last());
        lemma_count_concat(a, b.drop_last(), l);
    }
}

proof fn lemma_count_dedents(k: nat, cur: int, l: Lexeme)
    ensures
        count_of(dedents(k, cur), l) == if l == Lexeme::Plain(Token::Dedent) { k } else { 0 },
    decreases k,
{
    if k > 0 {
        assert(dedents(k, cur).drop_last() =~= dedents((k - 1) as nat, cur));
        lemma_count_dedents((k - 1) as nat, cur, l);
    } else {
        assert(dedents(k, cur) =~= Seq::<(Lexeme, int, int)>::empty());
    }
}

proof fn lemma_count_placed(toks: Seq<(Lexeme, int)>, n: int, w: int, l: Lexeme)
    requires
        no_structural(toks),
        structural(l),
    ensures
        count_of(placed(toks, n, w), l) == 0,
    decreases toks.len(),
{
    if toks.len() > 0 {
        assert(placed(toks, n, w).drop_last() =~= placed(toks.drop_last(), n, w));
        assert(!structural(toks[toks.len() - 1].0));
        lemma_count_placed(toks.drop_last(), n, w, l);
    }
}

proof fn lemma_sig_plain(t: Seq<char>, i: int, b: int)
    ensures
        no_structural(sig_tokens(t, i, b)),
    decreases t.len() - i,
{
    if 0 <= i < t.len() {
        let c = t[i];
        if is_ws(c) {
            lemma_sig_plain(t, i + 1, b + utf8_len(c));
        } else if punct(c) is Some {
            lemma_sig_plain(t, i + 1, b + 1);
            lemma_prepend_plain((Lexeme::Plain(punct(c)->0), b), sig_tokens(t, i + 1, b + 1));
        } else if c == '-' {
            if char_at(t, i + 1, '>') {
                lemma_sig_plain(t, i + 2, b + 2);
                lemma_prepend_plain((Lexeme::Plain(Token::Arrow), b), sig_tokens(t, i + 2, b + 2));
            } else {
                lemma_sig_plain(t, i + 1, b + 1);
            }
        } else if alphabetic(c) || c == '_' {
            lemma_word_end(t, i);
            let j = word_end(t, i);
            let w = t.subrange(i, j);
            let lex = if w == "where"@ { Lexeme::Plain(Token::Where) } else { Lexeme::Ident(w) };
            lemma_sig_plain(t, j, b + utf8_total(w));
            lemma_prepend_plain((lex, b), sig_tokens(t, j, b + utf8_total(w)));
        } else {
            lemma_sig_plain(t, i + 1, b + utf8_len(c));
        }
    }
}

proof fn lemma_prepend_plain(x: (Lexeme, int), v: Seq<(Lexeme, int)>)
    requires
        no_structural(v),
        !structural(x.0),
    ensures
        no_structural(seq![x] + v),
{
    assert forall|k: int| 0 <= k < (seq![x] + v).len() implies !structural(#[trigger] (seq![x] + v)[k].0) by {
        if k > 0 {
            assert((seq![x] + v)[k] == v[k - 1]);
        }
    }
}

proof fn lemma_expr_plain(t: Seq<char>, i: int)
    ensures
        expr_tokens(t, i) matches Ok(v) ==> no_structural(v),
    decreases t.len() - i,
{
    if 0 <= i < t.len() {
        let c = t[i];
        if is_ws(c) {
            lemma_expr_plain(t, i + 1);
        } else if c == '"' {
            lemma_string_scan_advances(t, i + 1, seq![]);
            if let Ok((s, j)) = string_scan(t, i + 1, seq![]) {
                lemma_expr_plain(t, j);
                if let Ok(v) = expr_tokens(t, j) {
                    lemma_prepend_plain((Lexeme::Str(s), i), v);
                }
            }
        } else if alphabetic(c) || c == '_' {
            lemma_word_end(t, i);
            let j = word_end(t, i);
            lemma_expr_plain(t, j);
            if let Ok(v) = expr_tokens(t, j) {
                lemma_prepend_plain((word_lexeme(t.subrange(i, j)), i), v);
            }
        } else if numeric(c) {
            lemma_number_end(t, i);
            if let Ok((l, j)) = number_at(t, i) {
                lemma_expr_plain(t, j);
                if let Ok(v) = expr_tokens(t, j) {
                    lemma_prepend_plain((l, i), v);
                }
            }
        } else {
            lemma_operator_advances(t, i);
            if let Ok((tok, j)) = operator_at(t, i) {
                lemma_expr_plain(t, j);
                if let Ok(v) = expr_tokens(t, j) {
                    lemma_prepend_plain((Lexeme::Plain(tok), i), v);
                }
            }
        }
    }
}

proof fn lemma_decl_plain(kw: Token, klen: int, t: Seq<char>)
    requires
        kw == Token::Procedure || kw == Token::Function,
    ensures
        no_structural(decl_tokens(kw, klen, t)),
{
    let p = space_end(t, klen);
    let q = word_end(t, p);
    let name_start = klen + utf8_total(t.subrange(klen, p));
    lemma_sig_plain(t, q, name_start + (q - p));
    let rest = sig_tokens(t, q, name_start + (q - p));
    if q != p {
        lemma_prepend_plain((Lexeme::Ident(t.subrange(p, q)), name_start), rest);
        lemma_prepend_plain((Lexeme::Plain(kw), 0int), seq![(Lexeme::Ident(t.subrange(p, q)), name_start)] + rest);
        assert(seq![(Lexeme::Plain(kw), 0int), (Lexeme::Ident(t.subrange(p, q)), name_start)] + rest
            =~= seq![(Lexeme::Plain(kw), 0int)] + (seq![(Lexeme::Ident(t.subrange(p, q)), name_start)] + rest));
    }
}

/// The tokens of a line never stand for the layout.
pub proof fn lemma_line_tokens_plain(t: Seq<char>)
    ensures
        line_tokens(t) matches Ok(v) ==> no_structural(v),
{
    lemma_decl_plain(Token::Procedure, "procedure"@.len() as int, t);
    lemma_decl_plain(Token::Procedure, "proc"@.len() as int, t);
    lemma_decl_plain(Token::Function, "function"@.len() as int, t);
    lemma_expr_plain(t, 0);
}

proof fn lemma_pop_above_keeps(stack: Seq<int>, w: int)
    requires
        stack.contains(w),
    ensures
        pop_above(stack, w).len() >= 1,
    decreases stack.len(),
{
    if stack.len() > 0 && stack.last() > w {
        let i = choose|i: int| 0 <= i < stack.len() && stack[i] == w;
        assert(i < stack.len() - 1);
        assert(stack.drop_last()[i] == w);
        lemma_pop_above_keeps(stack.drop_last(), w);
    }
}

proof fn lemma_layout_balanced(ls: Seq<Seq<char>>, li: int, stack: Seq<int>, pending: nat, depth: int, cur: int)
    requires
        stack.len() >= 1,
    ensures
        layout(ls, li, stack, pending, depth, cur) matches Ok(v) ==> {
            &&& count_of(v, Lexeme::Plain(Token::Dedent))
                == count_of(v, Lexeme::Plain(Token::Indent)) + (stack.len() - 1) + pending
            &&& count_of(v, Lexeme::Plain(Token::Eof)) == 1
            &&& v.len() > 0
            &&& v.last().0 == Lexeme::Plain(Token::Eof)
        },
    decreases ls.len() - li, stack.len() + pending,
{
    let dd = Lexeme::Plain(Token::Dedent);
    let ii = Lexeme::Plain(Token::Indent);
    let ee = Lexeme::Plain(Token::Eof);
    if pending > 0 {
        lemma_layout_balanced(ls, li, stack, (pending - 1) as nat, depth, cur);
        if let Ok(rest) = layout(ls, li, stack, (pending - 1) as nat, depth, cur) {
            let x = seq![(dd, cur, 1int)];
            lemma_count_concat(x, rest, dd);
            lemma_count_concat(x, rest, ii);
            lemma_count_concat(x, rest, ee);
            lemma_count_single((dd, cur, 1int), dd);
            lemma_count_single((dd, cur, 1int), ii);
            lemma_count_single((dd, cur, 1int), ee);
            assert(count_of(x, dd) == 1);
            assert(count_of(x, ii) == 0);
            assert(count_of(x, ee) == 0);
            assert((x + rest).last() == rest.last());
        }
    } else if li < 0 || li >= ls.len() {
        let k: nat = if stack.len() > 1 { (stack.len() - 1) as nat } else { 0 };
        let c = closing(stack, cur);
        assert(c.drop_last() =~= dedents(k, cur));
        lemma_count_dedents(k, cur, dd);
        lemma_count_dedents(k, cur, ii);
        lemma_count_dedents(k, cur, ee);
        assert(count_of(c, dd) == k);
        assert(count_of(c, ee) == 1);
        assert(count_of(c, ii) == 0);
    } else {
        let line = ls[li];
        let n = li + 1;
        if blank(line) {
            lemma_layout_balanced(ls, li + 1, stack, 0, depth, cur);
        } else {
            let p = lead(line);
            if !(has_char(p, ' ') && has_char(p, '\t')) {
                let w = indent_width(p);
                let top = stack.last();
                if depth == 0 && w < top {
                    if stack.contains(w) {
                        lemma_pop_above_len(stack, w);
                        lemma_pop_above_keeps(stack, w);
                        let kept = pop_above(stack, w);
                        let popped = stack.len() - kept.len();
                        let np: nat = if popped > 1 { (popped - 1) as nat } else { 0 };
                        lemma_layout_balanced(ls, li, kept, np, depth, cur);
                        if let Ok(rest) = layout(ls, li, kept, np, depth, cur) {
                            let x = seq![(dd, n, 1int)];
                            lemma_count_concat(x, rest, dd);
                            lemma_count_concat(x, rest, ii);
                            lemma_count_concat(x, rest, ee);
                            lemma_count_single((dd, n, 1int), dd);
                            lemma_count_single((dd, n, 1int), ii);
                            lemma_count_single((dd, n, 1int), ee);
                            assert(count_of(x, dd) == 1);
                            assert(count_of(x, ii) == 0);
                            assert(count_of(x, ee) == 0);
                            assert(kept.len() + np + 1 == stack.len());
                            assert((x + rest).last() == rest.last());
                        }
                    }
                } else {
                    let opens = depth == 0 && w > top;
                    let stack2 = if opens { stack.push(w) } else { stack };
                    let pre: Seq<(Lexeme, int, int)> = if opens { seq![(ii, n, 1int)] } else { seq![] };
                    lemma_line_tokens_plain(code_of(line));
                    if let Ok(toks) = line_tokens(code_of(line)) {
                        let d2 = depth_after(depth, toks);
                        lemma_layout_balanced(ls, li + 1, stack2, 0, d2, n);
                        if let Ok(rest) = layout(ls, li + 1, stack2, 0, d2, n) {
                            let pl = placed(toks, n, w);
                            lemma_count_placed(toks, n, w, dd);
                            lemma_count_placed(toks, n, w, ii);
                            lemma_count_placed(toks, n, w, ee);
                            lemma_count_concat(pre, pl, dd);
                            lemma_count_concat(pre, pl, ii);
                            lemma_count_concat(pre, pl, ee);
                            lemma_count_concat(pre + pl, rest, dd);
                            lemma_count_concat(pre + pl, rest, ii);
                            lemma_count_concat(pre + pl, rest, ee);
                            if opens {
                                lemma_count_single((ii, n, 1int), dd);
                                lemma_count_single((ii, n, 1int), ii);
                                lemma_count_single((ii, n, 1int), ee);
                                assert(count_of(pre, ii) == 1);
                                assert(count_of(pre, dd) == 0);
                                assert(count_of(pre, ee) == 0);
                            } else {
                                assert(count_of(pre, ii) == 0);
                                assert(count_of(pre, dd) == 0);
                                assert(count_of(pre, ee) == 0);
                            }
                            assert((pre + pl + rest).last() == rest.last());
                        }
                    }
                }
            }
        }
    }
}

/// Every source text that the lexer reads gives as many `Indent` tokens
/// as `Dedent` tokens, and exactly one `Eof`, as its last token.
pub proof fn lemma_lex_balanced(s: Seq<char>)
    ensures
        lex(s) matches Ok(v) ==> {
            &&& count_of(v, Lexeme::Plain(Token::Indent)) == count_of(v, Lexeme::Plain(Token::Dedent))
            &&& count_of(v, Lexeme::Plain(Token::Eof)) == 1
            &&& v.len() > 0
            &&& v.last().0 == Lexeme::Plain(Token::Eof)
        },
{
    lemma_layout_balanced(lines_of(s), 0, seq![0int], 0, 0, 1);
}

} // verus!
