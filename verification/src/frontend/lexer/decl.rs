use vstd::prelude::*;
use crate::common::chars::{alphabetic, is_alphabetic_char, utf8_len, utf8_total, utf8_width, slice_chars, spells, string_of};
use crate::common::text::{is_ws, is_ws_char};
use super::{Token, Lexeme, lexemes};
use super::ident::{word_end, lemma_word_end, read_identifier};
use super::operator::{char_at, next_is};

verus! {

/// The end of the run of whitespace of `t` that starts at `i`.
pub open spec fn space_end(t: Seq<char>, i: int) -> int
    decreases t.len() - i,
{
    if 0 <= i < t.len() && is_ws(t[i]) {
        space_end(t, i + 1)
    } else {
        i
    }
}

pub proof fn lemma_space_end(t: Seq<char>, i: int)
    requires
        0 <= i <= t.len(),
    ensures
        i <= space_end(t, i) <= t.len(),
        forall|k: int| i <= k < space_end(t, i) ==> is_ws(#[trigger] t[k]),
    decreases t.len() - i,
{
    if i < t.len() && is_ws(t[i]) {
        lemma_space_end(t, i + 1);
    }
}

/// The delimiters a signature is made of, one character each.
pub open spec fn punct(c: char) -> Option<Token> {
    if c == '(' {
        Some(Token::LParen)
    } else if c == ')' {
        Some(Token::RParen)
    } else if c == ':' {
        Some(Token::Colon)
    } else if c == ',' {
        Some(Token::Comma)
    } else if c == '<' {
        Some(Token::Lt)
    } else if c == '>' {
        Some(Token::Gt)
    } else if c == '&' {
        Some(Token::Ampersand)
    } else {
        None
    }
}

/// The tokens of the signature of a declaration, read from index `i` of
/// the line `t`, each with its offset; `b` is the offset of `t[i]`.
/// Offsets within the signature count bytes. A `-` that does not begin
/// `->`, and any character that begins no token of a signature, is
/// passed over.
pub open spec fn sig_tokens(t: Seq<char>, i: int, b: int) -> Seq<(Lexeme, int)>
    decreases t.len() - i,
{
    if i < 0 || i >= t.len() {
        seq![]
    } else {
        let c = t[i];
        if is_ws(c) {
            sig_tokens(t, i + 1, b + utf8_len(c))
        } else if punct(c) is Some {
            seq![(Lexeme::Plain(punct(c)->0), b)] + sig_tokens(t, i + 1, b + 1)
        } else if c == '-' {
            if char_at(t, i + 1, '>') {
                seq![(Lexeme::Plain(Token::Arrow), b)] + sig_tokens(t, i + 2, b + 2)
            } else {
                sig_tokens(t, i + 1, b + 1)
            }
        } else if alphabetic(c) || c == '_' {
            proof {
                lemma_word_end(t, i);
            }
            let j = word_end(t, i);
            let w = t.subrange(i, j);
            let lex = if w == "where"@ { Lexeme::Plain(Token::Where) } else { Lexeme::Ident(w) };
            seq![(lex, b)] + sig_tokens(t, j, b + utf8_total(w))
        } else {
            sig_tokens(t, i + 1, b + utf8_len(c))
        }
    }
}

/// The tokens of a declaration line `t` that begins with the keyword
/// `kw` of `klen` characters: the keyword, the name after it (a run of
/// word characters after whitespace), and the signature after the name.
/// The name's offset counts the bytes of the whitespace before it; the
/// signature's offsets go on from the name's offset plus the characters
/// of the name.
pub open spec fn decl_tokens(kw: Token, klen: int, t: Seq<char>) -> Seq<(Lexeme, int)> {
    let p = space_end(t, klen);
    let q = word_end(t, p);
    let name_start = klen + utf8_total(t.subrange(klen, p));
    if q == p {
        seq![(Lexeme::Plain(kw), 0int)]
    } else {
        seq![(Lexeme::Plain(kw), 0int), (Lexeme::Ident(t.subrange(p, q)), name_start)]
            + sig_tokens(t, q, name_start + (q - p))
    }
}

proof fn lemma_utf8_step(t: Seq<char>, lo: int, k: int)
    requires
        0 <= lo <= k < t.len(),
    ensures
        utf8_total(t.subrange(lo, k + 1)) == utf8_total(t.subrange(lo, k)) + utf8_len(t[k]),
{
    assert(t.subrange(lo, k + 1).drop_last() =~= t.subrange(lo, k));
}

fn utf8_bytes(t: &Vec<char>, lo: usize, hi: usize) -> (r: usize)
    requires
        lo <= hi <= t@.len() <= usize::MAX / 9,
    ensures
        r == utf8_total(t@.subrange(lo as int, hi as int)),
        r <= 4 * (hi - lo),
{
    let mut r: usize = 0;
    let mut k: usize = lo;
    assert(t@.subrange(lo as int, lo as int) =~= Seq::<char>::empty());
    while k < hi
        invariant
            lo <= k <= hi <= t@.len() <= usize::MAX / 9,
            r == utf8_total(t@.subrange(lo as int, k as int)),
            r <= 4 * (k - lo),
        decreases hi - k,
    {
        proof {
            lemma_utf8_step(t@, lo as int, k as int);
        }
        r = r + utf8_width(t[k]);
        k = k + 1;
    }
    r
}

fn punct_of(c: char) -> (r: Option<Token>)
    ensures
        r == punct(c),
{
    if c == '(' {
        Some(Token::LParen)
    } else if c == ')' {
        Some(Token::RParen)
    } else if c == ':' {
        Some(Token::Colon)
    } else if c == ',' {
        Some(Token::Comma)
    } else if c == '<' {
        Some(Token::Lt)
    } else if c == '>' {
        Some(Token::Gt)
    } else if c == '&' {
        Some(Token::Ampersand)
    } else {
        None
    }
}

/// Appends the tokens of the signature that starts at index `start` of
/// `t`, whose first character has offset `base`.
pub fn parse_signature(t: &Vec<char>, start: usize, base: usize, out: &mut Vec<(Token, usize)>)
    requires
        start <= t@.len() <= usize::MAX / 9,
        base <= 4 * start,
    ensures
        lexemes(final(out)@) == lexemes(old(out)@) + sig_tokens(t@, start as int, base as int),
        forall|k: int| old(out)@.len() <= k < final(out)@.len() ==> #[trigger] final(out)@[k].1 <= 4 * t@.len(),
        forall|k: int| 0 <= k < old(out)@.len() ==> final(out)@[k] == old(out)@[k],
        final(out)@.len() >= old(out)@.len(),
{
    let ghost out0 = out@;
    let mut i: usize = start;
    let mut b: usize = base;
    while i < t.len()
        invariant
            start <= i <= t@.len() <= usize::MAX / 9,
            b <= 4 * i,
            lexemes(out@) + sig_tokens(t@, i as int, b as int) == lexemes(out0) + sig_tokens(t@, start as int, base as int),
            forall|k: int| out0.len() <= k < out@.len() ==> #[trigger] out@[k].1 <= 4 * t@.len(),
            forall|k: int| 0 <= k < out0.len() ==> out@[k] == out0[k],
            out@.len() >= out0.len(),
        decreases t@.len() - i,
    {
        let c = t[i];
        let ghost before = lexemes(out@);
        if is_ws_char(c) {
            b = b + utf8_width(c);
            i = i + 1;
        } else if let Some(tok) = punct_of(c) {
            out.push((tok, b));
            proof {
                assert(lexemes(out@) =~= before.push((tok@, b as int)));
                assert(before + sig_tokens(t@, i as int, b as int)
                    =~= before.push((tok@, b as int)) + sig_tokens(t@, i + 1, b + 1));
            }
            b = b + 1;
            i = i + 1;
        } else if c == '-' {
            if next_is(t, i + 1, '>') {
                out.push((Token::Arrow, b));
                proof {
                    assert(lexemes(out@) =~= before.push((Token::Arrow@, b as int)));
                    assert(before + sig_tokens(t@, i as int, b as int)
                        =~= before.push((Token::Arrow@, b as int)) + sig_tokens(t@, i + 2, b + 2));
                }
                b = b + 2;
                i = i + 2;
            } else {
                b = b + 1;
                i = i + 1;
            }
        } else if is_alphabetic_char(c) || c == '_' {
            proof {
                lemma_word_end(t@, i as int);
            }
            let j = read_identifier(t, i);
            let w = slice_chars(t, i, j);
            let tok = if spells(&w, "where") { Token::Where } else { Token::Identifier(string_of(&w)) };
            let n = utf8_bytes(t, i, j);
            out.push((tok, b));
            proof {
                assert(lexemes(out@) =~= before.push((tok@, b as int)));
                assert(before + sig_tokens(t@, i as int, b as int)
                    =~= before.push((tok@, b as int)) + sig_tokens(t@, j as int, b + n));
            }
            b = b + n;
            i = j;
        } else {
            b = b + utf8_width(c);
            i = i + 1;
        }
    }
}

/// The tokens of a declaration line `t` that begins with the keyword
/// `keyword` of `keyword_len` characters.
pub fn parse_declaration(keyword: Token, keyword_len: usize, t: &Vec<char>) -> (r: Vec<(Token, usize)>)
    requires
        keyword_len <= t@.len() <= usize::MAX / 9,
        keyword@ == Lexeme::Plain(keyword),
    ensures
        lexemes(r@) == decl_tokens(keyword, keyword_len as int, t@),
        forall|k: int| 0 <= k < r@.len() ==> #[trigger] r@[k].1 <= 4 * t@.len(),
{
    let mut out: Vec<(Token, usize)> = Vec::new();
    out.push((keyword, 0));
    proof {
        lemma_space_end(t@, keyword_len as int);
    }
    let mut p: usize = keyword_len;
    while p < t.len() && is_ws_char(t[p])
        invariant
            keyword_len <= p <= t@.len(),
            space_end(t@, p as int) == space_end(t@, keyword_len as int),
        decreases t@.len() - p,
    {
        p = p + 1;
    }
    let q = read_identifier(t, p);
    proof {
        lemma_word_end(t@, p as int);
    }
    let ghost first = lexemes(out@);
    assert(first =~= seq![(Lexeme::Plain(keyword), 0int)]);
    if q == p {
        return out;
    }
    let name_start = keyword_len + utf8_bytes(t, keyword_len, p);
    let name = slice_chars(t, p, q);
    out.push((Token::Identifier(string_of(&name)), name_start));
    assert(lexemes(out@) =~= seq![(Lexeme::Plain(keyword), 0int), (Lexeme::Ident(t@.subrange(p as int, q as int)), name_start as int)]);
    parse_signature(t, q, name_start + (q - p), &mut out);
    out
}

} // verus!
