use vstd::prelude::*;

verus! {

// ─── Character classes ──────────────────────────────────────────────

/// Whether `c` has the Unicode `Alphabetic` property, as
/// `char::is_alphabetic` decides it from the tables of the standard library.
pub uninterp spec fn alphabetic(c: char) -> bool;

/// Whether `c` is in one of the Unicode number categories (`Nd`, `Nl`,
/// `No`), as `char::is_numeric` decides it.
pub uninterp spec fn numeric(c: char) -> bool;

/// `char::is_alphanumeric`, which the standard library documents as
/// `is_alphabetic() || is_numeric()`.
pub open spec fn alphanumeric(c: char) -> bool {
    alphabetic(c) || numeric(c)
}

/// `char::is_alphabetic`. The contract names its result: the Unicode table
/// behind it is not restated here.
#[verifier::external_body]
pub(crate) fn is_alphabetic_char(c: char) -> (r: bool)
    ensures
        r == alphabetic(c),
{
    c.is_alphabetic()
}

/// `char::is_numeric`. The contract names its result: the Unicode table
/// behind it is not restated here.
#[verifier::external_body]
pub(crate) fn is_numeric_char(c: char) -> (r: bool)
    ensures
        r == numeric(c),
{
    c.is_numeric()
}

/// `char::is_alphanumeric`, through the two classes it is made of.
pub fn is_alphanumeric_char(c: char) -> (r: bool)
    ensures
        r == alphanumeric(c),
{
    is_alphabetic_char(c) || is_numeric_char(c)
}

/// The number of bytes of `c` in UTF-8.
pub open spec fn utf8_len(c: char) -> nat {
    if (c as u32) < 0x80 {
        1
    } else if (c as u32) < 0x800 {
        2
    } else if (c as u32) < 0x10000 {
        3
    } else {
        4
    }
}

/// The number of bytes of `s` in UTF-8.
pub open spec fn utf8_total(s: Seq<char>) -> nat
    decreases s.len(),
{
    if s.len() == 0 {
        0
    } else {
        utf8_total(s.drop_last()) + utf8_len(s.last())
    }
}

/// `char::len_utf8`.
pub fn utf8_width(c: char) -> (r: usize)
    ensures
        r == utf8_len(c),
        1 <= r <= 4,
{
    let code: u32 = c as u32;
    if code < 0x80 {
        1
    } else if code < 0x800 {
        2
    } else if code < 0x10000 {
        3
    } else {
        4
    }
}

// ─── Between strings and characters ─────────────────────────────────

/// `String::push`.
#[verifier::external_body]
pub(crate) fn push_char(s: &mut String, c: char)
    ensures
        final(s)@ == old(s)@.push(c),
{
    s.push(c)
}

/// The characters of `s`, in order.
pub fn chars_of(s: &str) -> (v: Vec<char>)
    ensures
        v@ == s@,
{
    let mut v: Vec<char> = Vec::new();
    proof {
        broadcast use vstd::string::axiom_spec_iter;
    }
    for c in it: s.chars()
        invariant
            it.seq() == s@,
            v@ == s@.take(it.index() as int),
    {
        assert(s@.take(it.index() + 1) =~= s@.take(it.index() as int).push(c));
        v.push(c);
    }
    assert(v@ =~= s@);
    v
}

/// The string made of the characters of `v`.
pub fn string_of(v: &Vec<char>) -> (s: String)
    ensures
        s@ == v@,
{
    let mut s = String::new();
    let mut i: usize = 0;
    while i < v.len()
        invariant
            i <= v.len(),
            s@ == v@.take(i as int),
        decreases v.len() - i,
    {
        push_char(&mut s, v[i]);
        assert(v@.take(i + 1) =~= v@.take(i as int).push(v@[i as int]));
        i = i + 1;
    }
    assert(v@.take(i as int) =~= v@);
    s
}

/// Whether the characters of `w` spell `lit`.
pub fn spells(w: &Vec<char>, lit: &str) -> (r: bool)
    ensures
        r == (w@ == lit@),
{
    let n = lit.unicode_len();
    if w.len() != n {
        return false;
    }
    let mut i: usize = 0;
    while i < n
        invariant
            n == lit@.len(),
            n == w@.len(),
            i <= n,
            forall|j: int| 0 <= j < i ==> w@[j] == lit@[j],
        decreases n - i,
    {
        if w[i] != lit.get_char(i) {
            return false;
        }
        i = i + 1;
    }
    assert(w@ =~= lit@);
    true
}

/// Whether `lit` is a prefix of `w`.
pub fn begins_with(w: &Vec<char>, lit: &str) -> (r: bool)
    ensures
        r == (lit@.len() <= w@.len() && w@.take(lit@.len() as int) == lit@),
{
    let n = lit.unicode_len();
    if w.len() < n {
        return false;
    }
    let mut i: usize = 0;
    while i < n
        invariant
            n == lit@.len(),
            n <= w@.len(),
            i <= n,
            forall|j: int| 0 <= j < i ==> w@[j] == lit@[j],
        decreases n - i,
    {
        if w[i] != lit.get_char(i) {
            assert(w@.take(n as int)[i as int] != lit@[i as int]);
            return false;
        }
        i = i + 1;
    }
    assert(w@.take(n as int) =~= lit@);
    true
}

/// The characters `v[lo..hi]`.
pub fn slice_chars(v: &Vec<char>, lo: usize, hi: usize) -> (r: Vec<char>)
    requires
        lo <= hi <= v@.len(),
    ensures
        r@ == v@.subrange(lo as int, hi as int),
{
    let mut r: Vec<char> = Vec::new();
    let mut i: usize = lo;
    while i < hi
        invariant
            lo <= i <= hi <= v@.len(),
            r@ == v@.subrange(lo as int, i as int),
        decreases hi - i,
    {
        r.push(v[i]);
        assert(v@.subrange(lo as int, i + 1) =~= v@.subrange(lo as int, i as int).push(v@[i as int]));
        i = i + 1;
    }
    r
}

} // verus!
