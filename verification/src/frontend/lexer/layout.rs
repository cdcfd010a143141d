use vstd::prelude::*;
use crate::common::chars::{chars_of, slice_chars, string_of, begins_with};
use crate::common::text::{is_ws, is_ws_char, trim, trim_start, trim_end, lemma_trim_len};
use crate::common::span::Span;
use super::{Token, Lexeme, Lexer, LexError, LexErrorKind, LexErrorView, LexFault, SpannedToken, lexemes};
use super::expr::{cons, prefixed, starts_with, line_tokens, tokenize_line, lemma_prefixed_cons};
use super::decl::{space_end, lemma_space_end};

verus! {

// ─── Lines ──────────────────────────────────────────────────────────

/// `l` without a carriage return at its end.
pub open spec fn drop_cr(l: Seq<char>) -> Seq<char> {
    if l.len() > 0 && l.last() == '\r' {
        l.drop_last()
    } else {
        l
    }
}

/// The lines of `s` from the line that starts at `start`, scanning from
/// index `i`.
pub open spec fn split_lines(s: Seq<char>, i: int, start: int) -> Seq<Seq<char>>
    decreases s.len() - i,
{
    if i < 0 || i >= s.len() {
        if 0 <= start < s.len() {
            seq![s.subrange(start, s.len() as int)]
        } else {
            seq![]
        }
    } else if s[i] == '\n' {
        seq![drop_cr(s.subrange(start, i))] + split_lines(s, i + 1, i + 1)
    } else {
        split_lines(s, i + 1, start)
    }
}

/// The lines of `s`, as `str::lines` gives them: split at `\n`, each
/// without the `\r` of a `\r\n`, and no empty line after a final `\n`.
pub open spec fn lines_of(s: Seq<char>) -> Seq<Seq<char>> {
    split_lines(s, 0, 0)
}

pub open spec fn char_views(v: Seq<Vec<char>>) -> Seq<Seq<char>> {
    v.map_values(|l: Vec<char>| l@)
}

proof fn lemma_split_lines_short(s: Seq<char>, i: int, start: int)
    requires
        0 <= start <= i <= s.len(),
    ensures
        forall|k: int| 0 <= k < split_lines(s, i, start).len() ==> #[trigger] split_lines(s, i, start)[k].len() <= s.len(),
    decreases s.len() - i,
{
    if i < s.len() {
        if s[i] == '\n' {
            lemma_split_lines_short(s, i + 1, i + 1);
            let first = drop_cr(s.subrange(start, i));
            let rest = split_lines(s, i + 1, i + 1);
            assert(first.len() <= s.len());
            assert(split_lines(s, i, start) == seq![first] + rest);
            assert forall|k: int| 0 <= k < split_lines(s, i, start).len() implies #[trigger] split_lines(s, i, start)[k].len() <= s.len() by {
                if k > 0 {
                    assert(split_lines(s, i, start)[k] == rest[k - 1]);
                } else {
                    assert(split_lines(s, i, start)[k] == first);
                }
            }
        } else {
            lemma_split_lines_short(s, i + 1, start);
            assert(split_lines(s, i, start) == split_lines(s, i + 1, start));
        }
    } else if start < s.len() {
        assert(split_lines(s, i, start) == seq![s.subrange(start, s.len() as int)]);
        assert(split_lines(s, i, start)[0].len() <= s.len());
    }
}

fn split_source(s: &Vec<char>) -> (ls: Vec<Vec<char>>)
    ensures
        char_views(ls@) == lines_of(s@),
{
    let mut ls: Vec<Vec<char>> = Vec::new();
    let mut i: usize = 0;
    let mut start: usize = 0;
    while i < s.len()
        invariant
            start <= i <= s@.len(),
            lines_of(s@) == char_views(ls@) + split_lines(s@, i as int, start as int),
        decreases s@.len() - i,
    {
        if s[i] == '\n' {
            let mut piece = slice_chars(s, start, i);
            if piece.len() > 0 && piece[piece.len() - 1] == '\r' {
                piece.pop();
            }
            let ghost before = char_views(ls@);
            ls.push(piece);
            proof {
                assert(char_views(ls@) =~= before.push(piece@));
                assert(before + split_lines(s@, i as int, start as int)
                    =~= before.push(piece@) + split_lines(s@, i + 1, i + 1));
            }
            i = i + 1;
            start = i;
        } else {
            i = i + 1;
        }
    }
    if start < s.len() {
        let piece = slice_chars(s, start, s.len());
        let ghost before = char_views(ls@);
        ls.push(piece);
        assert(char_views(ls@) =~= before + split_lines(s@, i as int, start as int));
    } else {
        assert(char_views(ls@) =~= char_views(ls@) + split_lines(s@, i as int, start as int));
    }
    ls
}

// ─── Comments and trimming ──────────────────────────────────────────

/// Where the comment of `s` begins (a `//` outside a string literal), or
/// the length of `s`, scanning from index `i` inside a string or not and
/// just after a backslash or not. In a string, a backslash escapes the
/// next character, so that `\"` does not end the string.
pub open spec fn comment_cut(s: Seq<char>, i: int, in_string: bool, escaped: bool) -> int
    decreases s.len() - i,
{
    if i < 0 || i >= s.len() {
        s.len() as int
    } else if escaped {
        comment_cut(s, i + 1, in_string, false)
    } else if s[i] == '\\' && in_string {
        comment_cut(s, i + 1, in_string, true)
    } else if s[i] == '"' {
        comment_cut(s, i + 1, !in_string, false)
    } else if s[i] == '/' && !in_string && i + 1 < s.len() && s[i + 1] == '/' {
        i
    } else {
        comment_cut(s, i + 1, in_string, false)
    }
}

/// `s` without its comment.
pub open spec fn strip_comment(s: Seq<char>) -> Seq<char> {
    s.take(comment_cut(s, 0, false, false))
}

proof fn lemma_comment_cut_bound(s: Seq<char>, i: int, in_string: bool, escaped: bool)
    requires
        0 <= i <= s.len(),
    ensures
        i <= comment_cut(s, i, in_string, escaped) <= s.len(),
    decreases s.len() - i,
{
    if i < s.len() {
        if escaped {
            lemma_comment_cut_bound(s, i + 1, in_string, false);
        } else if s[i] == '\\' && in_string {
            lemma_comment_cut_bound(s, i + 1, in_string, true);
        } else if s[i] == '"' {
            lemma_comment_cut_bound(s, i + 1, !in_string, false);
        } else if s[i] == '/' && !in_string && i + 1 < s.len() && s[i + 1] == '/' {
        } else {
            lemma_comment_cut_bound(s, i + 1, in_string, false);
        }
    }
}

fn comment_start(s: &Vec<char>) -> (k: usize)
    ensures
        k == comment_cut(s@, 0, false, false),
        k <= s@.len(),
{
    proof {
        lemma_comment_cut_bound(s@, 0, false, false);
    }
    let mut in_string = false;
    let mut escaped = false;
    let mut k: usize = 0;
    while k < s.len()
        invariant
            k <= s@.len(),
            comment_cut(s@, k as int, in_string, escaped) == comment_cut(s@, 0, false, false),
        decreases s@.len() - k,
    {
        let c = s[k];
        if escaped {
            escaped = false;
        } else if c == '\\' && in_string {
            escaped = true;
        } else if c == '"' {
            in_string = !in_string;
        } else if c == '/' && !in_string && k + 1 < s.len() && s[k + 1] == '/' {
            return k;
        }
        k = k + 1;
    }
    k
}

/// `v` without leading and trailing whitespace.
fn trim_chars(v: &Vec<char>) -> (r: Vec<char>)
    ensures
        r@ == trim(v@),
{
    let n = v.len();
    let mut lo: usize = 0;
    assert(v@.subrange(0, n as int) =~= v@);
    while lo < n && is_ws_char(v[lo])
        invariant
            n == v@.len(),
            0 <= lo <= n,
            trim_start(v@) == trim_start(v@.subrange(lo as int, n as int)),
        decreases n - lo,
    {
        assert(v@.subrange(lo as int, n as int).drop_first() =~= v@.subrange(lo + 1, n as int));
        lo = lo + 1;
    }
    let ghost t = v@.subrange(lo as int, n as int);
    assert(trim_start(t) == t);
    let mut hi: usize = n;
    assert(v@.subrange(lo as int, hi as int) =~= t);
    while hi > lo && is_ws_char(v[hi - 1])
        invariant
            n == v@.len(),
            lo <= hi <= n,
            t == v@.subrange(lo as int, n as int),
            trim_end(t) == trim_end(v@.subrange(lo as int, hi as int)),
        decreases hi - lo,
    {
        assert(v@.subrange(lo as int, hi as int).drop_last() =~= v@.subrange(lo as int, hi - 1));
        hi = hi - 1;
    }
    slice_chars(v, lo, hi)
}

/// The code of a line: trimmed, without its comment, trimmed again.
pub open spec fn code_of(line: Seq<char>) -> Seq<char> {
    trim(strip_comment(trim(line)))
}

/// A line that holds no code: empty, or all whitespace, or a comment
/// that begins with `//` or `--`.
pub open spec fn blank(line: Seq<char>) -> bool {
    let t = trim(line);
    t.len() == 0 || starts_with(t, "//"@) || starts_with(t, "--"@)
}

// ─── Indentation ────────────────────────────────────────────────────

/// The indentation of a line: its leading whitespace.
pub open spec fn lead(line: Seq<char>) -> Seq<char> {
    line.take(space_end(line, 0))
}

/// `s` holds `x`.
pub open spec fn has_char(s: Seq<char>, x: char) -> bool
    decreases s.len(),
{
    s.len() > 0 && (s.last() == x || has_char(s.drop_last(), x))
}

/// The width of an indentation: a tab counts four, any other whitespace
/// character one.
pub open spec fn indent_width(p: Seq<char>) -> int
    decreases p.len(),
{
    if p.len() == 0 {
        0
    } else {
        indent_width(p.drop_last()) + if p.last() == '\t' { 4int } else { 1int }
    }
}

/// The stack of open indentations once those wider than `w` are closed.
pub open spec fn pop_above(stack: Seq<int>, w: int) -> Seq<int>
    decreases stack.len(),
{
    if stack.len() > 0 && stack.last() > w {
        pop_above(stack.drop_last(), w)
    } else {
        stack
    }
}

pub proof fn lemma_pop_above_len(stack: Seq<int>, w: int)
    ensures
        pop_above(stack, w).len() <= stack.len(),
        stack.len() > 0 && stack.last() > w ==> pop_above(stack, w).len() < stack.len(),
    decreases stack.len(),
{
    if stack.len() > 0 && stack.last() > w {
        lemma_pop_above_len(stack.drop_last(), w);
    }
}

/// The depth of open brackets after the tokens of one line, from `d`:
/// `[` and `(` open one, `]` and `)` close one, never below zero.
pub open spec fn depth_after(d: int, toks: Seq<(Lexeme, int)>) -> int
    decreases toks.len(),
{
    if toks.len() == 0 {
        d
    } else {
        let l = toks[0].0;
        let d2 = if l == Lexeme::Plain(Token::LBracket) || l == Lexeme::Plain(Token::LParen) {
            d + 1
        } else if l == Lexeme::Plain(Token::RBracket) || l == Lexeme::Plain(Token::RParen) {
            if d > 0 { d - 1 } else { 0 }
        } else {
            d
        };
        depth_after(d2, toks.drop_first())
    }
}

/// The tokens of a line with their positions: line `n`, and the column
/// after the indentation `w` plus the offset.
pub open spec fn placed(toks: Seq<(Lexeme, int)>, n: int, w: int) -> Seq<(Lexeme, int, int)> {
    toks.map_values(|p: (Lexeme, int)| (p.0, n, w + 1 + p.1))
}

/// The error for a fault at column `col` of line `n`, whose text is
/// `line`; a fault in a number literal carries no position.
pub open spec fn fault_error(f: LexFault, col: int, n: int, line: Seq<char>) -> LexErrorView {
    match f {
        LexFault::InvalidFloat(_) => LexErrorView { fault: f, line: 0, column: 0, text: seq![] },
        LexFault::InvalidInteger(_) => LexErrorView { fault: f, line: 0, column: 0, text: seq![] },
        _ => LexErrorView { fault: f, line: n, column: col, text: line },
    }
}

/// `k` dedents at line `cur`.
pub open spec fn dedents(k: nat, cur: int) -> Seq<(Lexeme, int, int)> {
    Seq::new(k, |_j: int| (Lexeme::Plain(Token::Dedent), cur, 1int))
}

/// A dedent for each open block but the outermost, then the end of input.
pub open spec fn closing(stack: Seq<int>, cur: int) -> Seq<(Lexeme, int, int)> {
    let k: nat = if stack.len() > 1 { (stack.len() - 1) as nat } else { 0 };
    dedents(k, cur).push((Lexeme::Plain(Token::Eof), cur, 0int))
}

/// The tokens from line `li` of `ls` on, with their positions. `stack`
/// holds the indentations of the open blocks, `pending` the dedents still
/// owed, `depth` the open brackets, `cur` the number of the last line
/// read. Inside brackets, indentation opens and closes no block.
pub open spec fn layout(ls: Seq<Seq<char>>, li: int, stack: Seq<int>, pending: nat, depth: int, cur: int)
    -> Result<Seq<(Lexeme, int, int)>, LexErrorView>
    decreases ls.len() - li, stack.len() + pending,
{
    if pending > 0 {
        cons((Lexeme::Plain(Token::Dedent), cur, 1int), layout(ls, li, stack, (pending - 1) as nat, depth, cur))
    } else if li < 0 || li >= ls.len() {
        Ok(closing(stack, cur))
    } else {
        let line = ls[li];
        let n = li + 1;
        if blank(line) {
            layout(ls, li + 1, stack, 0, depth, cur)
        } else {
            let p = lead(line);
            if has_char(p, ' ') && has_char(p, '\t') {
                Err(LexErrorView { fault: LexFault::MixedIndentation, line: n, column: 0, text: line })
            } else {
                let w = indent_width(p);
                let top = if stack.len() > 0 { stack.last() } else { 0 };
                if depth == 0 && w < top {
                    if !stack.contains(w) {
                        let previous = if stack.len() >= 2 {
                            stack[stack.len() - 2]
                        } else if stack.len() == 1 {
                            stack[0]
                        } else {
                            0
                        };
                        Err(LexErrorView {
                            fault: LexFault::InconsistentIndentation { expected: top, previous, found: w },
                            line: n,
                            column: w,
                            text: line,
                        })
                    } else {
                        proof {
                            lemma_pop_above_len(stack, w);
                            assert(stack.len() > 0);
                        }
                        let kept = pop_above(stack, w);
                        let popped = stack.len() - kept.len();
                        cons(
                            (Lexeme::Plain(Token::Dedent), n, 1int),
                            layout(ls, li, kept, if popped > 1 { (popped - 1) as nat } else { 0 }, depth, cur),
                        )
                    }
                } else {
                    let opens = depth == 0 && w > top;
                    let stack2 = if opens { stack.push(w) } else { stack };
                    let pre = if opens { seq![(Lexeme::Plain(Token::Indent), n, 1int)] } else { seq![] };
                    match line_tokens(code_of(line)) {
                        Err((f, col)) => Err(fault_error(f, col, n, line)),
                        Ok(toks) => prefixed(
                            pre + placed(toks, n, w),
                            layout(ls, li + 1, stack2, 0, depth_after(depth, toks), n),
                        ),
                    }
                }
            }
        }
    }
}

/// The tokens of the source text `s`, with their positions, or the first
/// error.
pub open spec fn lex(s: Seq<char>) -> Result<Seq<(Lexeme, int, int)>, LexErrorView> {
    layout(lines_of(s), 0, seq![0int], 0, 0, 1)
}

// ─── Reading the lines ──────────────────────────────────────────────

pub open spec fn ints(v: Seq<usize>) -> Seq<int> {
    v.map_values(|x: usize| x as int)
}

/// The tokens with their positions, as the contracts see them.
pub open spec fn positions(v: Seq<SpannedToken>) -> Seq<(Lexeme, int, int)> {
    v.map_values(|st: SpannedToken| st.placed())
}

/// The end of the indentation of `line`, whether it holds a space and a
/// tab, and its width.
fn indentation(line: &Vec<char>) -> (r: (usize, bool, bool, usize))
    requires
        line@.len() <= usize::MAX / 9,
    ensures
        r.0 == space_end(line@, 0),
        r.1 == has_char(lead(line@), ' '),
        r.2 == has_char(lead(line@), '\t'),
        r.3 == indent_width(lead(line@)),
        r.3 <= 4 * line@.len(),
{
    proof {
        lemma_space_end(line@, 0);
    }
    let mut k: usize = 0;
    let mut has_space = false;
    let mut has_tab = false;
    let mut width: usize = 0;
    assert(line@.take(0) =~= Seq::<char>::empty());
    while k < line.len() && is_ws_char(line[k])
        invariant
            k <= line@.len() <= usize::MAX / 9,
            space_end(line@, k as int) == space_end(line@, 0),
            has_space == has_char(line@.take(k as int), ' '),
            has_tab == has_char(line@.take(k as int), '\t'),
            width == indent_width(line@.take(k as int)),
            width <= 4 * k,
        decreases line@.len() - k,
    {
        let c = line[k];
        assert(line@.take(k + 1).drop_last() =~= line@.take(k as int));
        if c == ' ' {
            has_space = true;
        }
        if c == '\t' {
            has_tab = true;
            width = width + 4;
        } else {
            width = width + 1;
        }
        k = k + 1;
    }
    (k, has_space, has_tab, width)
}

fn stack_holds(stack: &Vec<usize>, w: usize) -> (r: bool)
    ensures
        r == ints(stack@).contains(w as int),
{
    let mut k: usize = 0;
    while k < stack.len()
        invariant
            k <= stack@.len(),
            forall|m: int| 0 <= m < k ==> stack@[m] != w,
        decreases stack@.len() - k,
    {
        if stack[k] == w {
            assert(ints(stack@)[k as int] == w as int);
            return true;
        }
        k = k + 1;
    }
    assert forall|m: int| 0 <= m < ints(stack@).len() implies ints(stack@)[m] != w as int by {
        assert(stack@[m] != w);
    }
    false
}

fn fault_at(kind: LexErrorKind, col: usize, n: usize, line: &Vec<char>) -> (e: LexError)
    ensures
        e@ == fault_error(kind@, col as int, n as int, line@),
{
    let unplaced = match &kind {
        LexErrorKind::InvalidFloat(_) => true,
        LexErrorKind::InvalidInteger(_) => true,
        _ => false,
    };
    if unplaced {
        LexError { kind, line: 0, column: 0, source_line: String::new() }
    } else {
        LexError { kind, line: n, column: col, source_line: string_of(line) }
    }
}

/// Appends the tokens of one line at line `n` after the indentation `w`.
fn place_line(toks: Vec<(Token, usize)>, n: usize, w: usize, bound: usize, out: &mut Vec<SpannedToken>)
    requires
        forall|k: int| 0 <= k < toks@.len() ==> #[trigger] toks@[k].1 <= bound,
        w + 1 + bound <= usize::MAX,
    ensures
        positions(final(out)@) == positions(old(out)@) + placed(lexemes(toks@), n as int, w as int),
        forall|k: int| 0 <= k < old(out)@.len() ==> final(out)@[k] == old(out)@[k],
        final(out)@.len() == old(out)@.len() + toks@.len(),
        forall|k: int| old(out)@.len() <= k < final(out)@.len() ==> (#[trigger] final(out)@[k]).is_point(),
{
    let ghost t0 = toks@;
    let ghost o0 = out@;
    for p in it: toks.into_iter()
        invariant
            it.seq() == t0,
            forall|k: int| 0 <= k < t0.len() ==> #[trigger] t0[k].1 <= bound,
            w + 1 + bound <= usize::MAX,
            out@.len() == o0.len() + it.index(),
            forall|k: int| 0 <= k < o0.len() ==> out@[k] == o0[k],
            forall|k: int| o0.len() <= k < out@.len() ==> (#[trigger] out@[k]).is_point(),
            positions(out@) == positions(o0) + placed(lexemes(t0.take(it.index() as int)), n as int, w as int),
    {
        let ghost i = it.index();
        let ghost before = positions(out@);
        let (tok, off) = p;
        out.push(SpannedToken { token: tok, span: Span::point(n, w + 1 + off) });
        proof {
            assert(lexemes(t0.take(i + 1)) =~= lexemes(t0.take(i)).push((t0[i].0@, t0[i].1 as int)));
            assert(positions(out@) =~= before.push((tok@, n as int, w + 1 + off)));
            assert(placed(lexemes(t0.take(i + 1)), n as int, w as int)
                =~= placed(lexemes(t0.take(i)), n as int, w as int).push((t0[i].0@, n as int, w + 1 + t0[i].1)));
        }
    }
    proof {
        assert(t0.take(t0.len() as int) =~= t0);
    }
}

proof fn lemma_prefixed_concat<A, E>(p: Seq<A>, q: Seq<A>, r: Result<Seq<A>, E>)
    ensures
        prefixed(p, prefixed(q, r)) == prefixed(p + q, r),
{
    match r {
        Ok(v) => {
            assert(p + (q + v) =~= (p + q) + v);
        },
        Err(_) => {},
    }
}

impl Lexer {
    /// Reads the source text `source` into tokens with their positions.
    ///
    /// Lines that are empty, all whitespace, or a comment (beginning with
    /// `//` or `--`) are passed over. The indentation of each other line
    /// (a tab counts four) opens a block, with an `Indent` token, when it
    /// is deeper than the current block, and closes blocks, with one
    /// `Dedent` token each, when it is shallower; it must then return to
    /// the indentation of an open block. Inside open brackets, lines
    /// continue the bracketed expression and their indentation counts for
    /// nothing. At the end, the open blocks are closed and `Eof` ends the
    /// tokens. A token's column is the indentation plus one plus its
    /// offset in the code of the line.
    pub fn new(source: String) -> (r: Result<Lexer, LexError>)
        requires
            source@.len() <= usize::MAX / 9,
        ensures
            match r {
                Ok(lexer) => lex(source@) == Ok::<Seq<(Lexeme, int, int)>, LexErrorView>(positions(lexer.tokens@))
                    && forall|k: int| 0 <= k < lexer.tokens@.len() ==> (#[trigger] lexer.tokens@[k]).is_point(),
                Err(e) => lex(source@) == Err::<Seq<(Lexeme, int, int)>, LexErrorView>(e@),
            },
    {
        let chars = chars_of(source.as_str());
        let lines = split_source(&chars);
        proof {
            lemma_split_lines_short(source@, 0, 0);
            assert forall|k: int| 0 <= k < lines@.len() implies #[trigger] lines@[k]@.len() <= usize::MAX / 9 by {
                assert(char_views(lines@)[k] == lines@[k]@);
            }
        }
        let mut tokens: Vec<SpannedToken> = Vec::new();
        let mut indent_stack: Vec<usize> = Vec::new();
        indent_stack.push(0);
        let mut pending_dedents: usize = 0;
        let mut bracket_depth: usize = 0;
        let mut line_idx: usize = 0;
        let mut current_line: usize = 1;
        proof {
            assert(ints(indent_stack@) =~= seq![0int]);
            assert(positions(tokens@) =~= Seq::<(Lexeme, int, int)>::empty());
            assert(prefixed(positions(tokens@), lex(source@)) == lex(source@)) by {
                match lex(source@) {
                    Ok(v) => { assert(positions(tokens@) + v =~= v); },
                    Err(_) => {},
                }
            }
        }
        while line_idx < lines.len() || pending_dedents > 0
            invariant
                char_views(lines@) == lines_of(source@),
                forall|k: int| 0 <= k < lines@.len() ==> #[trigger] lines@[k]@.len() <= usize::MAX / 9,
                line_idx <= lines@.len(),
                bracket_depth <= tokens@.len(),
                forall|k: int| 0 <= k < tokens@.len() ==> (#[trigger] tokens@[k]).is_point(),
                lex(source@) == prefixed(
                    positions(tokens@),
                    layout(char_views(lines@), line_idx as int, ints(indent_stack@), pending_dedents as nat,
                        bracket_depth as int, current_line as int),
                ),
            decreases lines@.len() - line_idx, indent_stack@.len() + pending_dedents,
        {
            let ghost ls = char_views(lines@);
            let ghost before = positions(tokens@);
            let ghost stack0 = ints(indent_stack@);
            if pending_dedents > 0 {
                pending_dedents = pending_dedents - 1;
                tokens.push(SpannedToken { token: Token::Dedent, span: Span::point(current_line, 1) });
                proof {
                    assert(positions(tokens@) =~= before.push((Lexeme::Plain(Token::Dedent), current_line as int, 1int)));
                    lemma_prefixed_cons(before, (Lexeme::Plain(Token::Dedent), current_line as int, 1int),
                        layout(ls, line_idx as int, stack0, pending_dedents as nat, bracket_depth as int, current_line as int));
                }
                continue;
            }
            let line = &lines[line_idx];
            let line_number = line_idx + 1;
            proof {
                assert(ls[line_idx as int] == line@);
            }
            let trimmed_line = trim_chars(line);
            proof {
                reveal_strlit("//");
                reveal_strlit("--");
            }
            if trimmed_line.len() == 0 || begins_with(&trimmed_line, "//") || begins_with(&trimmed_line, "--") {
                line_idx = line_idx + 1;
                continue;
            }
            let (_lead_end, has_space, has_tab, indent) = indentation(line);
            if has_space && has_tab {
                return Err(LexError {
                    kind: LexErrorKind::MixedIndentation,
                    line: line_number,
                    column: 0,
                    source_line: string_of(line),
                });
            }
            let current_indent = if indent_stack.len() > 0 { indent_stack[indent_stack.len() - 1] } else { 0 };
            let in_bracket_continuation = bracket_depth > 0;
            if !in_bracket_continuation && indent < current_indent {
                if !stack_holds(&indent_stack, indent) {
                    let n = indent_stack.len();
                    let previous = if n >= 2 { indent_stack[n - 2] } else if n == 1 { indent_stack[0] } else { 0 };
                    return Err(LexError {
                        kind: LexErrorKind::InconsistentIndentation { expected: current_indent, previous, found: indent },
                        line: line_number,
                        column: indent,
                        source_line: string_of(line),
                    });
                }
                let mut popped: usize = 0;
                let depth_before = indent_stack.len();
                while indent_stack.len() > 0 && indent_stack[indent_stack.len() - 1] > indent
                    invariant
                        pop_above(ints(indent_stack@), indent as int) == pop_above(stack0, indent as int),
                        indent_stack@.len() + popped == stack0.len(),
                        stack0.len() == depth_before,
                    decreases indent_stack@.len(),
                {
                    let ghost s = indent_stack@;
                    indent_stack.pop();
                    assert(ints(indent_stack@) =~= ints(s).drop_last());
                    popped = popped + 1;
                }
                proof {
                    lemma_pop_above_len(stack0, indent as int);
                }
                if popped > 1 {
                    pending_dedents = popped - 1;
                }
                tokens.push(SpannedToken { token: Token::Dedent, span: Span::point(line_number, 1) });
                proof {
                    assert(positions(tokens@) =~= before.push((Lexeme::Plain(Token::Dedent), line_number as int, 1int)));
                    lemma_prefixed_cons(before, (Lexeme::Plain(Token::Dedent), line_number as int, 1int),
                        layout(ls, line_idx as int, ints(indent_stack@), pending_dedents as nat, bracket_depth as int, current_line as int));
                }
                continue;
            }
            let opens = !in_bracket_continuation && indent > current_indent;
            let cut = comment_start(&trimmed_line);
            let uncommented = slice_chars(&trimmed_line, 0, cut);
            let code = trim_chars(&uncommented);
            proof {
                lemma_trim_len(line@);
                lemma_trim_len(uncommented@);
                assert(uncommented@ =~= strip_comment(trimmed_line@));
                assert(code@ == code_of(line@));
            }
            match tokenize_line(&code) {
                Err((kind, col)) => {
                    return Err(fault_at(kind, col, line_number, line));
                },
                Ok(toks) => {
                    let ghost lex_toks = lexemes(toks@);
                    let ghost pre: Seq<(Lexeme, int, int)> =
                        if opens { seq![(Lexeme::Plain(Token::Indent), line_number as int, 1int)] } else { seq![] };
                    if opens {
                        indent_stack.push(indent);
                        tokens.push(SpannedToken { token: Token::Indent, span: Span::point(line_number, 1) });
                    }
                    proof {
                        assert(positions(tokens@) =~= before + pre);
                        if opens {
                            assert(ints(indent_stack@) =~= stack0.push(indent as int));
                        }
                    }
                    let start = tokens.len();
                    let ghost mid = tokens@;
                    place_line(toks, line_number, indent, 4 * line.len(), &mut tokens);
                    proof {
                        assert(positions(tokens@) =~= before + (pre + placed(lex_toks, line_number as int, indent as int)));
                        assert forall|m: int| 0 <= m < lex_toks.len() implies #[trigger] tokens@[start + m].token@ == lex_toks[m].0 by {
                            assert(positions(tokens@)[start + m] == tokens@[start + m].placed());
                            assert(positions(tokens@)[start + m] == placed(lex_toks, line_number as int, indent as int)[m]);
                        }
                    }
                    let mut k: usize = start;
                    let ghost d0 = bracket_depth as int;
                    assert(lex_toks.skip(0) =~= lex_toks);
                    while k < tokens.len()
                        invariant
                            start <= k <= tokens@.len(),
                            tokens@.len() == start + lex_toks.len(),
                            bracket_depth <= k,
                            forall|m: int| 0 <= m < lex_toks.len() ==> #[trigger] tokens@[start + m].token@ == lex_toks[m].0,
                            depth_after(d0, lex_toks) == depth_after(bracket_depth as int, lex_toks.skip(k - start)),
                        decreases tokens@.len() - k,
                    {
                        assert(tokens@[start + (k - start)].token@ == lex_toks[k - start].0);
                        assert(lex_toks.skip(k - start).drop_first() =~= lex_toks.skip(k - start + 1));
                        match &tokens[k].token {
                            Token::LBracket | Token::LParen => {
                                bracket_depth = bracket_depth + 1;
                            },
                            Token::RBracket | Token::RParen => {
                                if bracket_depth > 0 {
                                    bracket_depth = bracket_depth - 1;
                                }
                            },
                            _ => {},
                        }
                        k = k + 1;
                    }
                    proof {
                        assert(lex_toks.skip(lex_toks.len() as int) =~= Seq::<(Lexeme, int)>::empty());
                        lemma_prefixed_concat(before, pre + placed(lex_toks, line_number as int, indent as int),
                            layout(ls, line_idx + 1, ints(indent_stack@), 0, bracket_depth as int, line_number as int));
                    }
                    line_idx = line_idx + 1;
                    current_line = line_number;
                },
            }
        }
        let ghost stack_end = ints(indent_stack@);
        let ghost before_end = positions(tokens@);
        let ghost k0: nat = if stack_end.len() > 1 { (stack_end.len() - 1) as nat } else { 0 };
        while indent_stack.len() > 1
            invariant
                indent_stack@.len() >= 1 || stack_end.len() == 0,
                positions(tokens@) == before_end + dedents((k0 - (if indent_stack@.len() > 1 { indent_stack@.len() - 1 } else { 0int })) as nat, current_line as int),
                k0 == (if stack_end.len() > 1 { stack_end.len() - 1 } else { 0int }),
                indent_stack@.len() <= stack_end.len(),
                indent_stack@.len() >= 1 ==> k0 - (indent_stack@.len() - 1) >= 0,
                forall|k: int| 0 <= k < tokens@.len() ==> (#[trigger] tokens@[k]).is_point(),
            decreases indent_stack@.len(),
        {
            let ghost p = positions(tokens@);
            let ghost j: nat = (k0 - (indent_stack@.len() - 1)) as nat;
            indent_stack.pop();
            tokens.push(SpannedToken { token: Token::Dedent, span: Span::point(current_line, 1) });
            assert(positions(tokens@) =~= p.push((Lexeme::Plain(Token::Dedent), current_line as int, 1int)));
            assert(dedents(j + 1, current_line as int) =~= dedents(j, current_line as int).push((Lexeme::Plain(Token::Dedent), current_line as int, 1int)));
        }
        let ghost p_end = positions(tokens@);
        tokens.push(SpannedToken { token: Token::Eof, span: Span::point(current_line, 0) });
        proof {
            assert(positions(tokens@) =~= p_end.push((Lexeme::Plain(Token::Eof), current_line as int, 0int)));
            assert(positions(tokens@) =~= before_end + closing(stack_end, current_line as int));
        }
        Ok(Lexer { tokens })
    }
}

} // verus!
