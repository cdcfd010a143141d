use vstd::prelude::*;
use crate::common::chars::{alphabetic, numeric, is_alphabetic_char, is_numeric_char, slice_chars, begins_with};
use crate::common::text::{is_ws, is_ws_char};
use super::{Token, Lexeme, LexErrorKind, LexFault, lexemes};
use super::ident::{word_end, lemma_word_end, word_lexeme, read_identifier, classify_identifier};
use super::literal::{string_scan, lemma_string_scan_advances, number_at, number_end, lemma_number_end, read_string, read_number};
use super::operator::{operator_at, lemma_operator_advances, handle_operator};
use super::decl::{decl_tokens, parse_declaration};

verus! {

/// `x` in front of the tokens of `r`, if `r` has tokens.
pub open spec fn cons<A, E>(x: A, r: Result<Seq<A>, E>) -> Result<Seq<A>, E> {
    match r {
        Ok(v) => Ok(seq![x] + v),
        Err(e) => Err(e),
    }
}

/// `p` in front of the tokens of `r`, if `r` has tokens.
pub open spec fn prefixed<A, E>(p: Seq<A>, r: Result<Seq<A>, E>) -> Result<Seq<A>, E> {
    match r {
        Ok(v) => Ok(p + v),
        Err(e) => Err(e),
    }
}

/// The tokens of the line `t` from index `i` on, each with its offset
/// (the index of its first character); or the first fault, with its
/// column. Whitespace separates tokens; a token begins with `"` (a
/// string), a letter or `_` (a word), a digit (a number), or else is an
/// operator. Faults in numbers have column 0.
pub open spec fn expr_tokens(t: Seq<char>, i: int) -> Result<Seq<(Lexeme, int)>, (LexFault, int)>
    decreases t.len() - i,
{
    if i < 0 || i >= t.len() {
        Ok(seq![])
    } else {
        let c = t[i];
        if is_ws(c) {
            expr_tokens(t, i + 1)
        } else if c == '"' {
            proof {
                lemma_string_scan_advances(t, i + 1, seq![]);
            }
            match string_scan(t, i + 1, seq![]) {
                Ok((s, j)) => cons((Lexeme::Str(s), i), expr_tokens(t, j)),
                Err(e) => Err(e),
            }
        } else if alphabetic(c) || c == '_' {
            proof {
                lemma_word_end(t, i);
            }
            let j = word_end(t, i);
            cons((word_lexeme(t.subrange(i, j)), i), expr_tokens(t, j))
        } else if numeric(c) {
            proof {
                lemma_number_end(t, i);
            }
            match number_at(t, i) {
                Ok((l, j)) => cons((l, i), expr_tokens(t, j)),
                Err(f) => Err((f, 0int)),
            }
        } else {
            proof {
                lemma_operator_advances(t, i);
            }
            match operator_at(t, i) {
                Ok((tok, j)) => cons((Lexeme::Plain(tok), i), expr_tokens(t, j)),
                Err(e) => Err(e),
            }
        }
    }
}

/// The tokens of one line `t`, trimmed and without its comment: a line
/// that begins with `procedure`, `proc` or `function` is a declaration;
/// any other line is read as expressions.
pub open spec fn line_tokens(t: Seq<char>) -> Result<Seq<(Lexeme, int)>, (LexFault, int)> {
    if starts_with(t, "procedure"@) {
        Ok(decl_tokens(Token::Procedure, "procedure"@.len() as int, t))
    } else if starts_with(t, "proc"@) {
        Ok(decl_tokens(Token::Procedure, "proc"@.len() as int, t))
    } else if starts_with(t, "function"@) {
        Ok(decl_tokens(Token::Function, "function"@.len() as int, t))
    } else {
        expr_tokens(t, 0)
    }
}

/// `t` begins with `p`.
pub open spec fn starts_with(t: Seq<char>, p: Seq<char>) -> bool {
    p.len() <= t.len() && t.take(p.len() as int) == p
}

/// Reads the line `t` as expressions.
pub fn tokenize_expression(t: &Vec<char>) -> (r: Result<Vec<(Token, usize)>, (LexErrorKind, usize)>)
    requires
        t@.len() <= usize::MAX / 9,
    ensures
        match r {
            Ok(v) => expr_tokens(t@, 0) == Ok::<Seq<(Lexeme, int)>, (LexFault, int)>(lexemes(v@))
                && forall|k: int| 0 <= k < v@.len() ==> #[trigger] v@[k].1 < t@.len(),
            Err((k, col)) => expr_tokens(t@, 0) == Err::<Seq<(Lexeme, int)>, (LexFault, int)>((k@, col as int)),
        },
{
    let mut out: Vec<(Token, usize)> = Vec::new();
    let mut i: usize = 0;
    while i < t.len()
        invariant
            i <= t@.len() <= usize::MAX / 9,
            expr_tokens(t@, 0) == prefixed(lexemes(out@), expr_tokens(t@, i as int)),
            forall|k: int| 0 <= k < out@.len() ==> #[trigger] out@[k].1 < t@.len(),
        decreases t@.len() - i,
    {
        let c = t[i];
        let ghost before = lexemes(out@);
        if is_ws_char(c) {
            i = i + 1;
        } else if c == '"' {
            proof {
                lemma_string_scan_advances(t@, i + 1, seq![]);
            }
            match read_string(t, i + 1) {
                Ok((s, j)) => {
                    out.push((Token::StringLit(s), i));
                    proof {
                        assert(lexemes(out@) =~= before.push((Lexeme::Str(s@), i as int)));
                        lemma_prefixed_cons(before, (Lexeme::Str(s@), i as int), expr_tokens(t@, j as int));
                    }
                    i = j;
                },
                Err(e) => {
                    return Err(e);
                },
            }
        } else if is_alphabetic_char(c) || c == '_' {
            proof {
                lemma_word_end(t@, i as int);
            }
            let j = read_identifier(t, i);
            let w = slice_chars(t, i, j);
            let tok = classify_identifier(&w);
            out.push((tok, i));
            proof {
                assert(lexemes(out@) =~= before.push((tok@, i as int)));
                lemma_prefixed_cons(before, (tok@, i as int), expr_tokens(t@, j as int));
            }
            i = j;
        } else if is_numeric_char(c) {
            proof {
                lemma_number_end(t@, i as int);
            }
            match read_number(t, i) {
                Ok((tok, j)) => {
                    out.push((tok, i));
                    proof {
                        assert(lexemes(out@) =~= before.push((tok@, i as int)));
                        lemma_prefixed_cons(before, (tok@, i as int), expr_tokens(t@, j as int));
                    }
                    i = j;
                },
                Err(k) => {
                    return Err((k, 0));
                },
            }
        } else {
            proof {
                lemma_operator_advances(t@, i as int);
            }
            match handle_operator(t, i) {
                Ok((tok, j)) => {
                    out.push((tok, i));
                    proof {
                        assert(lexemes(out@) =~= before.push((Lexeme::Plain(tok), i as int)));
                        lemma_prefixed_cons(before, (Lexeme::Plain(tok), i as int), expr_tokens(t@, j as int));
                    }
                    i = j;
                },
                Err(e) => {
                    return Err(e);
                },
            }
        }
    }
    proof {
        assert(lexemes(out@) + seq![] =~= lexemes(out@));
    }
    Ok(out)
}

pub proof fn lemma_prefixed_cons<A, E>(p: Seq<A>, x: A, r: Result<Seq<A>, E>)
    ensures
        prefixed(p, cons(x, r)) == prefixed(p.push(x), r),
{
    match r {
        Ok(v) => {
            assert(p + (seq![x] + v) =~= p.push(x) + v);
        },
        Err(_) => {},
    }
}

/// Reads one line `t`, trimmed and without its comment.
pub fn tokenize_line(t: &Vec<char>) -> (r: Result<Vec<(Token, usize)>, (LexErrorKind, usize)>)
    requires
        t@.len() <= usize::MAX / 9,
    ensures
        match r {
            Ok(v) => line_tokens(t@) == Ok::<Seq<(Lexeme, int)>, (LexFault, int)>(lexemes(v@))
                && forall|k: int| 0 <= k < v@.len() ==> #[trigger] v@[k].1 <= 4 * t@.len(),
            Err((k, col)) => line_tokens(t@) == Err::<Seq<(Lexeme, int)>, (LexFault, int)>((k@, col as int)),
        },
{
    proof {
        reveal_strlit("procedure");
        reveal_strlit("proc");
        reveal_strlit("function");
    }
    if begins_with(t, "procedure") {
        Ok(parse_declaration(Token::Procedure, 9, t))
    } else if begins_with(t, "proc") {
        Ok(parse_declaration(Token::Procedure, 4, t))
    } else if begins_with(t, "function") {
        Ok(parse_declaration(Token::Function, 8, t))
    } else {
        tokenize_expression(t)
    }
}

} // verus!
