use vstd::prelude::*;
use crate::common::chars::{numeric, is_numeric_char, push_char, string_of};
use super::{Token, Lexeme, LexErrorKind, LexFault};
use super::operator::{char_at, next_is};

verus! {

// ─── String literals ────────────────────────────────────────────────

/// The character that a backslash followed by `c` stands for.
pub open spec fn unescape(c: char) -> Option<char> {
    if c == 'n' {
        Some('\n')
    } else if c == 't' {
        Some('\t')
    } else if c == 'r' {
        Some('\r')
    } else if c == '"' {
        Some('"')
    } else if c == '\\' {
        Some('\\')
    } else if c == '0' {
        Some('\0')
    } else {
        None
    }
}

/// Reads the rest of a string literal from index `i` of `t`, whose
/// content so far is `acc`: the content and the index after the closing
/// quote, or what is wrong with the column after the characters read.
pub open spec fn string_scan(t: Seq<char>, i: int, acc: Seq<char>) -> Result<(Seq<char>, int), (LexFault, int)>
    decreases t.len() - i,
{
    if i < 0 || i >= t.len() {
        Err((LexFault::UnterminatedString, t.len() as int))
    } else if t[i] == '"' {
        Ok((acc, i + 1))
    } else if t[i] == '\\' {
        if i + 1 >= t.len() {
            Err((LexFault::UnterminatedEscape, i + 1))
        } else {
            match unescape(t[i + 1]) {
                Some(e) => string_scan(t, i + 2, acc.push(e)),
                None => Err((LexFault::InvalidEscape(t[i + 1]), i + 2)),
            }
        }
    } else {
        string_scan(t, i + 1, acc.push(t[i]))
    }
}

pub proof fn lemma_string_scan_advances(t: Seq<char>, i: int, acc: Seq<char>)
    requires
        0 <= i,
    ensures
        string_scan(t, i, acc) matches Ok((_, j)) ==> i < j <= t.len(),
    decreases t.len() - i,
{
    if 0 <= i < t.len() && t[i] != '"' {
        if t[i] == '\\' {
            if i + 1 < t.len() && unescape(t[i + 1]) is Some {
                lemma_string_scan_advances(t, i + 2, acc.push(unescape(t[i + 1])->0));
            }
        } else {
            lemma_string_scan_advances(t, i + 1, acc.push(t[i]));
        }
    }
}

fn escape_of(c: char) -> (r: Option<char>)
    ensures
        r == unescape(c),
{
    if c == 'n' {
        Some('\n')
    } else if c == 't' {
        Some('\t')
    } else if c == 'r' {
        Some('\r')
    } else if c == '"' {
        Some('"')
    } else if c == '\\' {
        Some('\\')
    } else if c == '0' {
        Some('\0')
    } else {
        None
    }
}

/// Reads a string literal whose opening quote stands just before index
/// `i` of `t`.
pub fn read_string(t: &Vec<char>, i: usize) -> (r: Result<(String, usize), (LexErrorKind, usize)>)
    requires
        i <= t@.len() <= usize::MAX / 9,
    ensures
        match r {
            Ok((s, j)) => string_scan(t@, i as int, seq![]) == Ok::<(Seq<char>, int), (LexFault, int)>((s@, j as int)),
            Err((k, col)) => string_scan(t@, i as int, seq![]) == Err::<(Seq<char>, int), (LexFault, int)>((k@, col as int)),
        },
{
    let mut content = String::new();
    let mut j: usize = i;
    while j < t.len()
        invariant
            i <= j <= t@.len() <= usize::MAX / 9,
            string_scan(t@, i as int, seq![]) == string_scan(t@, j as int, content@),
        decreases t@.len() - j,
    {
        let ch = t[j];
        if ch == '"' {
            return Ok((content, j + 1));
        } else if ch == '\\' {
            if j + 1 >= t.len() {
                return Err((LexErrorKind::UnterminatedEscape, j + 1));
            }
            let escaped = t[j + 1];
            match escape_of(escaped) {
                Some(e) => {
                    push_char(&mut content, e);
                    j = j + 2;
                },
                None => {
                    return Err((LexErrorKind::InvalidEscape(escaped), j + 2));
                },
            }
        } else {
            push_char(&mut content, ch);
            j = j + 1;
        }
    }
    Err((LexErrorKind::UnterminatedString, t.len()))
}

// ─── Number literals ────────────────────────────────────────────────

/// The end of the run of digits of `t` from index `i`; with `sep`, the
/// separator `_` counts as a digit too.
pub open spec fn digit_run_end(t: Seq<char>, i: int, sep: bool) -> int
    decreases t.len() - i,
{
    if 0 <= i < t.len() && (numeric(t[i]) || (sep && t[i] == '_')) {
        digit_run_end(t, i + 1, sep)
    } else {
        i
    }
}

pub proof fn lemma_digit_run_end(t: Seq<char>, i: int, sep: bool)
    requires
        0 <= i <= t.len(),
    ensures
        i <= digit_run_end(t, i, sep) <= t.len(),
        i < t.len() && numeric(t[i]) ==> i < digit_run_end(t, i, sep),
    decreases t.len() - i,
{
    if i < t.len() && (numeric(t[i]) || (sep && t[i] == '_')) {
        lemma_digit_run_end(t, i + 1, sep);
    }
}

/// Where the number that starts at index `i` of `t` ends, and whether it
/// has a fraction or an exponent. A `.` followed by another `.` begins a
/// range, not a fraction.
pub open spec fn number_end(t: Seq<char>, i: int) -> (int, bool) {
    let a = digit_run_end(t, i, true);
    let (b, fraction) = if char_at(t, a, '.') && !char_at(t, a + 1, '.') {
        (digit_run_end(t, a + 1, true), true)
    } else {
        (a, false)
    };
    if char_at(t, b, 'e') || char_at(t, b, 'E') {
        let c = if char_at(t, b + 1, '+') || char_at(t, b + 1, '-') { b + 2 } else { b + 1 };
        (digit_run_end(t, c, false), true)
    } else {
        (b, fraction)
    }
}

pub proof fn lemma_number_end(t: Seq<char>, i: int)
    requires
        0 <= i < t.len(),
        numeric(t[i]),
    ensures
        i < number_end(t, i).0 <= t.len(),
{
    let a = digit_run_end(t, i, true);
    lemma_digit_run_end(t, i, true);
    let b = if char_at(t, a, '.') && !char_at(t, a + 1, '.') {
        lemma_digit_run_end(t, a + 1, true);
        digit_run_end(t, a + 1, true)
    } else {
        a
    };
    if char_at(t, b, 'e') || char_at(t, b, 'E') {
        let c = if char_at(t, b + 1, '+') || char_at(t, b + 1, '-') { b + 2 } else { b + 1 };
        lemma_digit_run_end(t, c, false);
    }
}

/// `s` without its digit separators.
pub open spec fn without_separators(s: Seq<char>) -> Seq<char>
    decreases s.len(),
{
    if s.len() == 0 {
        s
    } else if s.last() == '_' {
        without_separators(s.drop_last())
    } else {
        without_separators(s.drop_last()).push(s.last())
    }
}

pub open spec fn ascii_digit(c: char) -> bool {
    '0' <= c && c <= '9'
}

pub open spec fn all_ascii_digits(s: Seq<char>) -> bool {
    forall|k: int| 0 <= k < s.len() ==> ascii_digit(#[trigger] s[k])
}

pub open spec fn digit_value(c: char) -> int {
    (c as u32) - ('0' as u32)
}

/// The value of a sequence of decimal digits.
pub open spec fn digits_value(s: Seq<char>) -> int
    decreases s.len(),
{
    if s.len() == 0 {
        0
    } else {
        digits_value(s.drop_last()) * 10 + digit_value(s.last())
    }
}

/// What `str::parse::<i64>` gives for an unsigned decimal text: its
/// value, where it has only ASCII digits, at least one, and the value
/// fits.
pub open spec fn int_literal(s: Seq<char>) -> Option<i64> {
    if s.len() > 0 && all_ascii_digits(s) && digits_value(s) <= i64::MAX {
        Some(digits_value(s) as i64)
    } else {
        None
    }
}

/// The first index from `k` on where `s` holds `a` or `b`, or its length.
pub open spec fn first_of(s: Seq<char>, a: char, b: char, k: int) -> int
    decreases s.len() - k,
{
    if k < 0 || k >= s.len() {
        s.len() as int
    } else if s[k] == a || s[k] == b {
        k
    } else {
        first_of(s, a, b, k + 1)
    }
}

/// A mantissa as `f64::from_str` reads it: digits, or digits with a
/// point, with at least one digit.
pub open spec fn mantissa_ok(m: Seq<char>) -> bool {
    let d = first_of(m, '.', '.', 0);
    let whole = m.take(d);
    if d >= m.len() {
        whole.len() > 0 && all_ascii_digits(whole)
    } else {
        let frac = m.skip(d + 1);
        all_ascii_digits(whole) && all_ascii_digits(frac) && (whole.len() > 0 || frac.len() > 0)
    }
}

/// An exponent after its `e` as `f64::from_str` reads it: an optional
/// sign, then at least one digit.
pub open spec fn exponent_ok(x: Seq<char>) -> bool {
    let y = if x.len() > 0 && (x[0] == '+' || x[0] == '-') { x.drop_first() } else { x };
    y.len() > 0 && all_ascii_digits(y)
}

/// The unsigned decimal texts that `str::parse::<f64>` accepts: a
/// mantissa, then optionally `e` or `E` and an exponent.
pub open spec fn float_syntax(s: Seq<char>) -> bool {
    let e = first_of(s, 'e', 'E', 0);
    mantissa_ok(s.take(e)) && (e >= s.len() || exponent_ok(s.skip(e + 1)))
}

/// The number literal that starts at index `i` of `t`, with the index
/// after it; or the fault in it.
pub open spec fn number_at(t: Seq<char>, i: int) -> Result<(Lexeme, int), LexFault> {
    let (end, is_float) = number_end(t, i);
    let text = without_separators(t.subrange(i, end));
    if is_float {
        if float_syntax(text) {
            Ok((Lexeme::Float(text), end))
        } else {
            Err(LexFault::InvalidFloat(text))
        }
    } else {
        match int_literal(text) {
            Some(v) => Ok((Lexeme::Plain(Token::IntLit(v)), end)),
            None => Err(LexFault::InvalidInteger(text)),
        }
    }
}

fn run_end(t: &Vec<char>, i: usize, sep: bool) -> (j: usize)
    requires
        i <= t@.len(),
    ensures
        j == digit_run_end(t@, i as int, sep),
{
    proof {
        lemma_digit_run_end(t@, i as int, sep);
    }
    let mut j: usize = i;
    while j < t.len() && (is_numeric_char(t[j]) || (sep && t[j] == '_'))
        invariant
            i <= j <= t@.len(),
            digit_run_end(t@, j as int, sep) == digit_run_end(t@, i as int, sep),
        decreases t@.len() - j,
    {
        j = j + 1;
    }
    j
}

fn cleaned(t: &Vec<char>, lo: usize, hi: usize) -> (r: Vec<char>)
    requires
        lo <= hi <= t@.len(),
    ensures
        r@ == without_separators(t@.subrange(lo as int, hi as int)),
{
    let mut r: Vec<char> = Vec::new();
    let mut k: usize = lo;
    while k < hi
        invariant
            lo <= k <= hi <= t@.len(),
            r@ == without_separators(t@.subrange(lo as int, k as int)),
        decreases hi - k,
    {
        let ghost before = t@.subrange(lo as int, k as int);
        assert(t@.subrange(lo as int, k + 1).drop_last() =~= before);
        if t[k] != '_' {
            r.push(t[k]);
        }
        k = k + 1;
    }
    r
}

fn first_index_of(s: &Vec<char>, a: char, b: char) -> (k: usize)
    ensures
        k == first_of(s@, a, b, 0),
{
    let mut k: usize = 0;
    while k < s.len() && s[k] != a && s[k] != b
        invariant
            k <= s@.len(),
            first_of(s@, a, b, k as int) == first_of(s@, a, b, 0),
        decreases s@.len() - k,
    {
        k = k + 1;
    }
    k
}

fn digits_between(s: &Vec<char>, lo: usize, hi: usize) -> (r: bool)
    requires
        lo <= hi <= s@.len(),
    ensures
        r == all_ascii_digits(s@.subrange(lo as int, hi as int)),
{
    let mut k: usize = lo;
    while k < hi
        invariant
            lo <= k <= hi <= s@.len(),
            forall|m: int| lo <= m < k ==> ascii_digit(#[trigger] s@[m]),
        decreases hi - k,
    {
        if !('0' <= s[k] && s[k] <= '9') {
            assert(!ascii_digit(s@.subrange(lo as int, hi as int)[k - lo]));
            return false;
        }
        k = k + 1;
    }
    assert forall|m: int| 0 <= m < hi - lo implies ascii_digit(#[trigger] s@.subrange(lo as int, hi as int)[m]) by {
        assert(s@.subrange(lo as int, hi as int)[m] == s@[lo + m]);
    }
    true
}

fn reads_as_float(s: &Vec<char>) -> (r: bool)
    ensures
        r == float_syntax(s@),
{
    let e = first_index_of(s, 'e', 'E');
    proof {
        lemma_first_of_bound(s@, 'e', 'E', 0);
    }
    let m = slice_prefix(s, e);
    let d = first_index_of(&m, '.', '.');
    proof {
        lemma_first_of_bound(m@, '.', '.', 0);
    }
    let mantissa = if d >= m.len() {
        d > 0 && digits_between(&m, 0, d)
    } else {
        digits_between(&m, 0, d) && digits_between(&m, d + 1, m.len()) && (d > 0 || d + 1 < m.len())
    };
    proof {
        assert(m@.take(d as int) =~= m@.subrange(0, d as int));
        if d < m.len() {
            assert(m@.skip(d + 1) =~= m@.subrange(d + 1, m@.len() as int));
        }
    }
    if !mantissa {
        return false;
    }
    if e >= s.len() {
        return true;
    }
    let mut lo: usize = e + 1;
    if lo < s.len() && (s[lo] == '+' || s[lo] == '-') {
        lo = lo + 1;
    }
    proof {
        let x = s@.skip(e + 1);
        if x.len() > 0 && (x[0] == '+' || x[0] == '-') {
            assert(x.drop_first() =~= s@.subrange(lo as int, s@.len() as int));
        } else {
            assert(x =~= s@.subrange(lo as int, s@.len() as int));
        }
    }
    lo < s.len() && digits_between(s, lo, s.len())
}

fn slice_prefix(s: &Vec<char>, n: usize) -> (r: Vec<char>)
    requires
        n <= s@.len(),
    ensures
        r@ == s@.take(n as int),
{
    let mut r: Vec<char> = Vec::new();
    let mut k: usize = 0;
    while k < n
        invariant
            k <= n <= s@.len(),
            r@ == s@.take(k as int),
        decreases n - k,
    {
        r.push(s[k]);
        assert(s@.take(k + 1) =~= s@.take(k as int).push(s@[k as int]));
        k = k + 1;
    }
    r
}

proof fn lemma_first_of_bound(s: Seq<char>, a: char, b: char, k: int)
    requires
        0 <= k <= s.len(),
    ensures
        k <= first_of(s, a, b, k) <= s.len(),
    decreases s.len() - k,
{
    if k < s.len() && s[k] != a && s[k] != b {
        lemma_first_of_bound(s, a, b, k + 1);
    }
}

proof fn lemma_digits_prefix(s: Seq<char>, k: int)
    requires
        0 <= k < s.len(),
    ensures
        digits_value(s.take(k + 1)) == digits_value(s.take(k)) * 10 + digit_value(s[k]),
{
    assert(s.take(k + 1).drop_last() =~= s.take(k));
}

proof fn lemma_digits_grow(s: Seq<char>, k: int)
    requires
        0 <= k <= s.len(),
        all_ascii_digits(s),
    ensures
        0 <= digits_value(s.take(k)) <= digits_value(s),
    decreases s.len() - k,
{
    if k < s.len() {
        lemma_digits_prefix(s, k);
        lemma_digits_grow(s, k + 1);
        assert(ascii_digit(s[k]));
    } else {
        assert(s.take(k) =~= s);
        lemma_digits_nonneg(s);
    }
}

proof fn lemma_digits_nonneg(s: Seq<char>)
    requires
        all_ascii_digits(s),
    ensures
        digits_value(s) >= 0,
    decreases s.len(),
{
    if s.len() > 0 {
        assert(ascii_digit(s[s.len() - 1]));
        assert forall|k: int| 0 <= k < s.drop_last().len() implies ascii_digit(#[trigger] s.drop_last()[k]) by {
            assert(s.drop_last()[k] == s[k]);
        }
        lemma_digits_nonneg(s.drop_last());
    }
}

fn parse_int(s: &Vec<char>) -> (r: Option<i64>)
    ensures
        r == int_literal(s@),
{
    if s.len() == 0 {
        return None;
    }
    let mut v: i64 = 0;
    let mut k: usize = 0;
    while k < s.len()
        invariant
            0 < s@.len(),
            k <= s@.len(),
            forall|m: int| 0 <= m < k ==> ascii_digit(#[trigger] s@[m]),
            v as int == digits_value(s@.take(k as int)),
            v >= 0,
        decreases s@.len() - k,
    {
        let c = s[k];
        if !('0' <= c && c <= '9') {
            assert(!all_ascii_digits(s@));
            return None;
        }
        let d: i64 = (c as u32 - '0' as u32) as i64;
        proof {
            lemma_digits_prefix(s@, k as int);
        }
        if v > (i64::MAX - d) / 10 {
            proof {
                assert(v * 10 + d > i64::MAX) by (nonlinear_arith)
                    requires
                        v > (i64::MAX - d) / 10,
                        0 <= d <= 9,
                ;
                if all_ascii_digits(s@) {
                    lemma_digits_grow(s@, k + 1);
                }
            }
            return None;
        }
        proof {
            assert(v * 10 + d <= i64::MAX) by (nonlinear_arith)
                requires
                    v <= (i64::MAX - d) / 10,
                    0 <= d <= 9,
                    v >= 0,
            ;
        }
        v = v * 10 + d;
        k = k + 1;
    }
    assert(s@.take(k as int) =~= s@);
    Some(v)
}

/// Reads the number literal that starts at index `i` of `t`.
pub fn read_number(t: &Vec<char>, i: usize) -> (r: Result<(Token, usize), LexErrorKind>)
    requires
        i < t@.len() <= usize::MAX / 9,
        numeric(t@[i as int]),
    ensures
        match r {
            Ok((tok, j)) => number_at(t@, i as int) == Ok::<(Lexeme, int), LexFault>((tok@, j as int)),
            Err(k) => number_at(t@, i as int) == Err::<(Lexeme, int), LexFault>(k@),
        },
{
    let a = run_end(t, i, true);
    proof {
        lemma_digit_run_end(t@, i as int, true);
    }
    let mut is_float = false;
    let mut b = a;
    if a < t.len() && t[a] == '.' && !next_is(t, a + 1, '.') {
        is_float = true;
        b = run_end(t, a + 1, true);
    }
    proof {
        if is_float {
            lemma_digit_run_end(t@, a + 1, true);
        }
    }
    let mut end = b;
    if b < t.len() && (t[b] == 'e' || t[b] == 'E') {
        is_float = true;
        let mut c = b + 1;
        if c < t.len() && (t[c] == '+' || t[c] == '-') {
            c = c + 1;
        }
        end = run_end(t, c, false);
    }
    proof {
        lemma_number_end(t@, i as int);
    }
    let text = cleaned(t, i, end);
    if is_float {
        if reads_as_float(&text) {
            Ok((Token::FloatLit(string_of(&text)), end))
        } else {
            Err(LexErrorKind::InvalidFloat(string_of(&text)))
        }
    } else {
        match parse_int(&text) {
            Some(v) => Ok((Token::IntLit(v), end)),
            None => Err(LexErrorKind::InvalidInteger(string_of(&text))),
        }
    }
}

} // verus!
