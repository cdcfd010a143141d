use vstd::prelude::*;
use super::{Token, LexErrorKind, LexFault};

verus! {

/// `t` holds `d` at index `k`.
pub open spec fn char_at(t: Seq<char>, k: int, d: char) -> bool {
    0 <= k < t.len() && t[k] == d
}

/// The operator or delimiter that starts at index `i` of `t`, with the
/// index after it; or what is wrong there, with the column after the
/// offending character.
pub open spec fn operator_at(t: Seq<char>, i: int) -> Result<(Token, int), (LexFault, int)> {
    let c = t[i];
    if c == ':' {
        if char_at(t, i + 1, '=') { Ok((Token::Assign, i + 2)) } else { Ok((Token::Colon, i + 1)) }
    } else if c == '&' {
        Ok((Token::Ampersand, i + 1))
    } else if c == '+' {
        Ok((Token::Plus, i + 1))
    } else if c == '-' {
        if char_at(t, i + 1, '>') { Ok((Token::Arrow, i + 2)) } else { Ok((Token::Minus, i + 1)) }
    } else if c == '*' {
        Ok((Token::Star, i + 1))
    } else if c == '/' {
        Ok((Token::Slash, i + 1))
    } else if c == '<' {
        if char_at(t, i + 1, '=') { Ok((Token::LessEqual, i + 2)) } else { Ok((Token::Lt, i + 1)) }
    } else if c == '>' {
        if char_at(t, i + 1, '=') {
            Ok((Token::GreaterEqual, i + 2))
        } else {
            Ok((Token::Gt, i + 1))
        }
    } else if c == '=' {
        if char_at(t, i + 1, '=') {
            Ok((Token::Equal, i + 2))
        } else {
            Err((LexFault::UnexpectedEquals, i + 1))
        }
    } else if c == '!' {
        if char_at(t, i + 1, '=') {
            Ok((Token::NotEqual, i + 2))
        } else {
            Err((LexFault::UnexpectedBang, i + 1))
        }
    } else if c == '[' {
        Ok((Token::LBracket, i + 1))
    } else if c == ']' {
        Ok((Token::RBracket, i + 1))
    } else if c == ',' {
        Ok((Token::Comma, i + 1))
    } else if c == '(' {
        Ok((Token::LParen, i + 1))
    } else if c == ')' {
        Ok((Token::RParen, i + 1))
    } else if c == '.' {
        if char_at(t, i + 1, '.') {
            if char_at(t, i + 2, '=') {
                Ok((Token::DotDotEqual, i + 3))
            } else if char_at(t, i + 2, '.') {
                Ok((Token::Ellipsis, i + 3))
            } else {
                Ok((Token::DotDot, i + 2))
            }
        } else {
            Ok((Token::Dot, i + 1))
        }
    } else {
        Err((LexFault::UnexpectedCharacter(c), i + 1))
    }
}

/// An operator advances past at least the character it starts at.
pub proof fn lemma_operator_advances(t: Seq<char>, i: int)
    requires
        0 <= i < t.len(),
    ensures
        operator_at(t, i) matches Ok((_, j)) ==> i < j <= t.len(),
{
}

pub(crate) fn next_is(t: &Vec<char>, k: usize, d: char) -> (r: bool)
    ensures
        r == char_at(t@, k as int, d),
{
    k < t.len() && t[k] == d
}

/// Reads the operator or delimiter at index `i` of `t`.
pub fn handle_operator(t: &Vec<char>, i: usize) -> (r: Result<(Token, usize), (LexErrorKind, usize)>)
    requires
        i < t@.len() <= usize::MAX / 9,
    ensures
        match r {
            Ok((tok, j)) => operator_at(t@, i as int) == Ok::<(Token, int), (LexFault, int)>((tok, j as int)),
            Err((k, col)) => operator_at(t@, i as int) == Err::<(Token, int), (LexFault, int)>((k@, col as int)),
        },
{
    let c = t[i];
    if c == ':' {
        if next_is(t, i + 1, '=') { Ok((Token::Assign, i + 2)) } else { Ok((Token::Colon, i + 1)) }
    } else if c == '&' {
        Ok((Token::Ampersand, i + 1))
    } else if c == '+' {
        Ok((Token::Plus, i + 1))
    } else if c == '-' {
        if next_is(t, i + 1, '>') { Ok((Token::Arrow, i + 2)) } else { Ok((Token::Minus, i + 1)) }
    } else if c == '*' {
        Ok((Token::Star, i + 1))
    } else if c == '/' {
        Ok((Token::Slash, i + 1))
    } else if c == '<' {
        if next_is(t, i + 1, '=') { Ok((Token::LessEqual, i + 2)) } else { Ok((Token::Lt, i + 1)) }
    } else if c == '>' {
        if next_is(t, i + 1, '=') {
            Ok((Token::GreaterEqual, i + 2))
        } else {
            Ok((Token::Gt, i + 1))
        }
    } else if c == '=' {
        if next_is(t, i + 1, '=') {
            Ok((Token::Equal, i + 2))
        } else {
            Err((LexErrorKind::UnexpectedEquals, i + 1))
        }
    } else if c == '!' {
        if next_is(t, i + 1, '=') {
            Ok((Token::NotEqual, i + 2))
        } else {
            Err((LexErrorKind::UnexpectedBang, i + 1))
        }
    } else if c == '[' {
        Ok((Token::LBracket, i + 1))
    } else if c == ']' {
        Ok((Token::RBracket, i + 1))
    } else if c == ',' {
        Ok((Token::Comma, i + 1))
    } else if c == '(' {
        Ok((Token::LParen, i + 1))
    } else if c == ')' {
        Ok((Token::RParen, i + 1))
    } else if c == '.' {
        if next_is(t, i + 1, '.') {
            if next_is(t, i + 2, '=') {
                Ok((Token::DotDotEqual, i + 3))
            } else if next_is(t, i + 2, '.') {
                Ok((Token::Ellipsis, i + 3))
            } else {
                Ok((Token::DotDot, i + 2))
            }
        } else {
            Ok((Token::Dot, i + 1))
        }
    } else {
        Err((LexErrorKind::UnexpectedCharacter(c), i + 1))
    }
}

} // verus!
