use vstd::prelude::*;
use crate::common::chars::{alphanumeric, is_alphanumeric_char, string_of, spells};
use super::{Token, Lexeme};

verus! {

/// A character that continues a word: a letter, a digit, or `_`.
pub open spec fn word_char(c: char) -> bool {
    alphanumeric(c) || c == '_'
}

/// The end of the run of word characters of `t` that starts at `i`.
pub open spec fn word_end(t: Seq<char>, i: int) -> int
    decreases t.len() - i,
{
    if 0 <= i < t.len() && word_char(t[i]) {
        word_end(t, i + 1)
    } else {
        i
    }
}

pub proof fn lemma_word_end(t: Seq<char>, i: int)
    requires
        0 <= i <= t.len(),
    ensures
        i <= word_end(t, i) <= t.len(),
        i < t.len() && word_char(t[i]) ==> i < word_end(t, i),
        forall|k: int| i <= k < word_end(t, i) ==> word_char(#[trigger] t[k]),
    decreases t.len() - i,
{
    if i < t.len() && word_char(t[i]) {
        lemma_word_end(t, i + 1);
    }
}

/// The reserved words, and the token each stands for.
pub open spec fn keyword(w: Seq<char>) -> Option<Token> {
    if w == "procedure"@ { Some(Token::Procedure) }
    else if w == "function"@ { Some(Token::Function) }
    else if w == "var"@ { Some(Token::Var) }
    else if w == "val"@ { Some(Token::Val) }
    else if w == "if"@ { Some(Token::If) }
    else if w == "else"@ { Some(Token::Else) }
    else if w == "for"@ { Some(Token::For) }
    else if w == "while"@ { Some(Token::While) }
    else if w == "in"@ { Some(Token::In) }
    else if w == "do"@ { Some(Token::Do) }
    else if w == "true"@ { Some(Token::True) }
    else if w == "false"@ { Some(Token::False) }
    else if w == "null"@ { Some(Token::NullPtr) }
    else if w == "and"@ { Some(Token::And) }
    else if w == "or"@ { Some(Token::Or) }
    else if w == "not"@ { Some(Token::Not) }
    else if w == "return"@ { Some(Token::Return) }
    else if w == "spawn"@ { Some(Token::Spawn) }
    else if w == "channel"@ { Some(Token::Channel) }
    else if w == "send"@ { Some(Token::Send) }
    else if w == "receive"@ { Some(Token::Receive) }
    else if w == "parallel"@ { Some(Token::Parallel) }
    else if w == "Some"@ { Some(Token::SomeKw) }
    else if w == "None"@ { Some(Token::NoneKw) }
    else if w == "Ok"@ { Some(Token::OkKw) }
    else if w == "Error"@ { Some(Token::Error) }
    else if w == "break"@ { Some(Token::Break) }
    else if w == "continue"@ { Some(Token::Continue) }
    else if w == "match"@ { Some(Token::Match) }
    else if w == "import"@ { Some(Token::Import) }
    else if w == "try"@ { Some(Token::Try) }
    else if w == "catch"@ { Some(Token::Catch) }
    else if w == "finally"@ { Some(Token::Finally) }
    else if w == "region"@ { Some(Token::Region) }
    else if w == "unsafe"@ { Some(Token::Unsafe) }
    else if w == "extern"@ { Some(Token::Extern) }
    else if w == "from"@ { Some(Token::From) }
    else if w == "as"@ { Some(Token::As) }
    else if w == "static"@ { Some(Token::Static) }
    else if w == "dynamic"@ { Some(Token::Dynamic) }
    else if w == "where"@ { Some(Token::Where) }
    else if w == "end"@ { Some(Token::End) }
    else if w == "trait"@ { Some(Token::Trait) }
    else if w == "impl"@ { Some(Token::Impl) }
    else if w == "Self"@ { Some(Token::SelfType) }
    else if w == "case"@ { Some(Token::Case) }
    else if w == "mut"@ { Some(Token::Mut) }
    else { None }
}

/// The token a word reads as in an expression: one of the statement
/// words, a reserved word, or an identifier.
pub open spec fn word_lexeme(w: Seq<char>) -> Lexeme {
    if w == "print"@ {
        Lexeme::Plain(Token::Print)
    } else if w == "defer"@ {
        Lexeme::Plain(Token::Defer)
    } else if w == "alloc"@ {
        Lexeme::Plain(Token::Alloc)
    } else if w == "free"@ {
        Lexeme::Plain(Token::Free)
    } else {
        match keyword(w) {
            Some(t) => Lexeme::Plain(t),
            None => Lexeme::Ident(w),
        }
    }
}

/// The end of the word of `t` that starts at `i`.
pub fn read_identifier(t: &Vec<char>, i: usize) -> (j: usize)
    requires
        i <= t@.len(),
    ensures
        j == word_end(t@, i as int),
{
    proof {
        lemma_word_end(t@, i as int);
    }
    let mut j: usize = i;
    while j < t.len() && (is_alphanumeric_char(t[j]) || t[j] == '_')
        invariant
            i <= j <= t@.len(),
            word_end(t@, j as int) == word_end(t@, i as int),
        decreases t@.len() - j,
    {
        j = j + 1;
    }
    j
}

fn reserved(w: &Vec<char>) -> (r: Option<Token>)
    ensures
        r == keyword(w@),
{
    if spells(w, "procedure") { Some(Token::Procedure) }
    else if spells(w, "function") { Some(Token::Function) }
    else if spells(w, "var") { Some(Token::Var) }
    else if spells(w, "val") { Some(Token::Val) }
    else if spells(w, "if") { Some(Token::If) }
    else if spells(w, "else") { Some(Token::Else) }
    else if spells(w, "for") { Some(Token::For) }
    else if spells(w, "while") { Some(Token::While) }
    else if spells(w, "in") { Some(Token::In) }
    else if spells(w, "do") { Some(Token::Do) }
    else if spells(w, "true") { Some(Token::True) }
    else if spells(w, "false") { Some(Token::False) }
    else if spells(w, "null") { Some(Token::NullPtr) }
    else if spells(w, "and") { Some(Token::And) }
    else if spells(w, "or") { Some(Token::Or) }
    else if spells(w, "not") { Some(Token::Not) }
    else if spells(w, "return") { Some(Token::Return) }
    else if spells(w, "spawn") { Some(Token::Spawn) }
    else if spells(w, "channel") { Some(Token::Channel) }
    else if spells(w, "send") { Some(Token::Send) }
    else if spells(w, "receive") { Some(Token::Receive) }
    else if spells(w, "parallel") { Some(Token::Parallel) }
    else if spells(w, "Some") { Some(Token::SomeKw) }
    else if spells(w, "None") { Some(Token::NoneKw) }
    else if spells(w, "Ok") { Some(Token::OkKw) }
    else if spells(w, "Error") { Some(Token::Error) }
    else if spells(w, "break") { Some(Token::Break) }
    else if spells(w, "continue") { Some(Token::Continue) }
    else if spells(w, "match") { Some(Token::Match) }
    else if spells(w, "import") { Some(Token::Import) }
    else if spells(w, "try") { Some(Token::Try) }
    else if spells(w, "catch") { Some(Token::Catch) }
    else if spells(w, "finally") { Some(Token::Finally) }
    else if spells(w, "region") { Some(Token::Region) }
    else if spells(w, "unsafe") { Some(Token::Unsafe) }
    else if spells(w, "extern") { Some(Token::Extern) }
    else if spells(w, "from") { Some(Token::From) }
    else if spells(w, "as") { Some(Token::As) }
    else if spells(w, "static") { Some(Token::Static) }
    else if spells(w, "dynamic") { Some(Token::Dynamic) }
    else if spells(w, "where") { Some(Token::Where) }
    else if spells(w, "end") { Some(Token::End) }
    else if spells(w, "trait") { Some(Token::Trait) }
    else if spells(w, "impl") { Some(Token::Impl) }
    else if spells(w, "Self") { Some(Token::SelfType) }
    else if spells(w, "case") { Some(Token::Case) }
    else if spells(w, "mut") { Some(Token::Mut) }
    else { None }
}

/// The token that the word `w` reads as.
pub fn classify_identifier(w: &Vec<char>) -> (r: Token)
    ensures
        r@ == word_lexeme(w@),
{
    if spells(w, "print") {
        Token::Print
    } else if spells(w, "defer") {
        Token::Defer
    } else if spells(w, "alloc") {
        Token::Alloc
    } else if spells(w, "free") {
        Token::Free
    } else {
        match reserved(w) {
            Some(t) => t,
            None => Token::Identifier(string_of(w)),
        }
    }
}

} // verus!
