//! What the reading of reserved words promises: each reserved word has
//! a token of its own.

use vstd::prelude::*;
use super::{Token, Lexeme};
use super::ident::{keyword, word_lexeme};

verus! {

/// The reserved word that stands for a token, for the tokens that are
/// reserved words.
pub open spec fn spelling(t: Token) -> Option<Seq<char>> {
    match t {
        Token::Procedure => Some("procedure"@),
        Token::Function => Some("function"@),
        Token::Var => Some("var"@),
        Token::Val => Some("val"@),
        Token::If => Some("if"@),
        Token::Else => Some("else"@),
        Token::For => Some("for"@),
        Token::While => Some("while"@),
        Token::In => Some("in"@),
        Token::Do => Some("do"@),
        Token::True => Some("true"@),
        Token::False => Some("false"@),
        Token::NullPtr => Some("null"@),
        Token::And => Some("and"@),
        Token::Or => Some("or"@),
        Token::Not => Some("not"@),
        Token::Return => Some("return"@),
        Token::Spawn => Some("spawn"@),
        Token::Channel => Some("channel"@),
        Token::Send => Some("send"@),
        Token::Receive => Some("receive"@),
        Token::Parallel => Some("parallel"@),
        Token::SomeKw => Some("Some"@),
        Token::NoneKw => Some("None"@),
        Token::OkKw => Some("Ok"@),
        Token::Error => Some("Error"@),
        Token::Break => Some("break"@),
        Token::Continue => Some("continue"@),
        Token::Match => Some("match"@),
        Token::Import => Some("import"@),
        Token::Try => Some("try"@),
        Token::Catch => Some("catch"@),
        Token::Finally => Some("finally"@),
        Token::Region => Some("region"@),
        Token::Unsafe => Some("unsafe"@),
        Token::Extern => Some("extern"@),
        Token::From => Some("from"@),
        Token::As => Some("as"@),
        Token::Static => Some("static"@),
        Token::Dynamic => Some("dynamic"@),
        Token::Where => Some("where"@),
        Token::End => Some("end"@),
        Token::Trait => Some("trait"@),
        Token::Impl => Some("impl"@),
        Token::SelfType => Some("Self"@),
        Token::Case => Some("case"@),
        Token::Mut => Some("mut"@),
        _ => None,
    }
}

/// A word that reads as a reserved token is that token's spelling.
pub proof fn lemma_keyword_spelled(w: Seq<char>, t: Token)
    requires
        keyword(w) == Some(t),
    ensures
        spelling(t) == Some(w),
{
}

/// Distinct reserved words read as distinct tokens.
pub proof fn lemma_keywords_distinct(w1: Seq<char>, w2: Seq<char>)
    requires
        keyword(w1) is Some,
        keyword(w1) == keyword(w2),
    ensures
        w1 == w2,
{
    lemma_keyword_spelled(w1, keyword(w1)->Some_0);
    lemma_keyword_spelled(w2, keyword(w2)->Some_0);
}

/// The spelling of each reserved token reads as that token.
#[verifier::rlimit(100)]
#[verifier::spinoff_prover]
pub proof fn lemma_spelling_reads(t: Token)
    requires
        spelling(t) is Some,
    ensures
        keyword(spelling(t)->Some_0) == Some(t),
{
    match t {
        Token::Procedure => {
            reveal_strlit("procedure");
        },
        Token::Function => {
            reveal_strlit("function");
            reveal_strlit("procedure");
            assert("function"@.len() != "procedure"@.len());
        },
        Token::Var => {
            reveal_strlit("var");
            reveal_strlit("procedure");
            assert("var"@.len() != "procedure"@.len());
            reveal_strlit("function");
            assert("var"@.len() != "function"@.len());
        },
        Token::Val => {
            reveal_strlit("val");
            reveal_strlit("procedure");
            assert("val"@.len() != "procedure"@.len());
            reveal_strlit("function");
            assert("val"@.len() != "function"@.len());
            reveal_strlit("var");
            assert("val"@[2] != "var"@[2]);
        },
        Token::If => {
            reveal_strlit("if");
            reveal_strlit("procedure");
            assert("if"@.len() != "procedure"@.len());
            reveal_strlit("function");
            assert("if"@.len() != "function"@.len());
            reveal_strlit("var");
            assert("if"@.len() != "var"@.len());
            reveal_strlit("val");
            assert("if"@.len() != "val"@.len());
        },
        Token::Else => {
            reveal_strlit("else");
            reveal_strlit("procedure");
            assert("else"@.len() != "procedure"@.len());
            reveal_strlit("function");
            assert("else"@.len() != "function"@.len());
            reveal_strlit("var");
            assert("else"@.len() != "var"@.len());
            reveal_strlit("val");
            assert("else"@.len() != "val"@.len());
            reveal_strlit("if");
            assert("else"@.len() != "if"@.len());
        },
        Token::For => {
            reveal_strlit("for");
            reveal_strlit("procedure");
            assert("for"@.len() != "procedure"@.len());
            reveal_strlit("function");
            assert("for"@.len() != "function"@.len());
            reveal_strlit("var");
            assert("for"@[0] != "var"@[0]);
            reveal_strlit("val");
            assert("for"@[0] != "val"@[0]);
            reveal_strlit("if");
            assert("for"@.len() != "if"@.len());
            reveal_strlit("else");
            assert("for"@.len() != "else"@.len());
        },
        Token::While => {
            reveal_strlit("while");
            reveal_strlit("procedure");
            assert("while"@.len() != "procedure"@.len());
            reveal_strlit("function");
            assert("while"@.len() != "function"@.len());
            reveal_strlit("var");
            assert("while"@.len() != "var"@.len());
            reveal_strlit("val");
            assert("while"@.len() != "val"@.len());
            reveal_strlit("if");
            assert("while"@.len() != "if"@.len());
            reveal_strlit("else");
            assert("while"@.len() != "else"@.len());
            reveal_strlit("for");
            assert("while"@.len() != "for"@.len());
        },
        Token::In => {
            reveal_strlit("in");
            reveal_strlit("procedure");
            assert("in"@.len() != "procedure"@.len());
            reveal_strlit("function");
            assert("in"@.len() != "function"@.len());
            reveal_strlit("var");
            assert("in"@.len() != "var"@.len());
            reveal_strlit("val");
            assert("in"@.len() != "val"@.len());
            reveal_strlit("if");
            assert("in"@[1] != "if"@[1]);
            reveal_strlit("else");
            assert("in"@.len() != "else"@.len());
            reveal_strlit("for");
            assert("in"@.len() != "for"@.len());
            reveal_strlit("while");
            assert("in"@.len() != "while"@.len());
        },
        Token::Do => {
            reveal_strlit("do");
            reveal_strlit("procedure");
            assert("do"@.len() != "procedure"@.len());
            reveal_strlit("function");
            assert("do"@.len() != "function"@.len());
            reveal_strlit("var");
            assert("do"@.len() != "var"@.len());
            reveal_strlit("val");
            assert("do"@.len() != "val"@.len());
            reveal_strlit("if");
            assert("do"@[0] != "if"@[0]);
            reveal_strlit("else");
            assert("do"@.len() != "else"@.len());
            reveal_strlit("for");
            assert("do"@.len() != "for"@.len());
            reveal_strlit("while");
            assert("do"@.len() != "while"@.len());
            reveal_strlit("in");
            assert("do"@[0] != "in"@[0]);
        },
        Token::True => {
            reveal_strlit("true");
            reveal_strlit("procedure");
            assert("true"@.len() != "procedure"@.len());
            reveal_strlit("function");
            assert("true"@.len() != "function"@.len());
            reveal_strlit("var");
            assert("true"@.len() != "var"@.len());
            reveal_strlit("val");
            assert("true"@.len() != "val"@.len());
            reveal_strlit("if");
            assert("true"@.len() != "if"@.len());
            reveal_strlit("else");
            assert("true"@[0] != "else"@[0]);
            reveal_strlit("for");
            assert("true"@.len() != "for"@.len());
            reveal_strlit("while");
            assert("true"@.len() != "while"@.len());
            reveal_strlit("in");
            assert("true"@.len() != "in"@.len());
            reveal_strlit("do");
            assert("true"@.len() != "do"@.len());
        },
        Token::False => {
            reveal_strlit("false");
            reveal_strlit("procedure");
            assert("false"@.len() != "procedure"@.len());
            reveal_strlit("function");
            assert("false"@.len() != "function"@.len());
            reveal_strlit("var");
            assert("false"@.len() != "var"@.len());
            reveal_strlit("val");
            assert("false"@.len() != "val"@.len());
            reveal_strlit("if");
            assert("false"@.len() != "if"@.len());
            reveal_strlit("else");
            assert("false"@.len() != "else"@.len());
            reveal_strlit("for");
            assert("false"@.len() != "for"@.len());
            reveal_strlit("while");
            assert("false"@[0] != "while"@[0]);
            reveal_strlit("in");
            assert("false"@.len() != "in"@.len());
            reveal_strlit("do");
            assert("false"@.len() != "do"@.len());
            reveal_strlit("true");
            assert("false"@.len() != "true"@.len());
        },
        Token::NullPtr => {
            reveal_strlit("null");
            reveal_strlit("procedure");
            assert("null"@.len() != "procedure"@.len());
            reveal_strlit("function");
            assert("null"@.len() != "function"@.len());
            reveal_strlit("var");
            assert("null"@.len() != "var"@.len());
            reveal_strlit("val");
            assert("null"@.len() != "val"@.len());
            reveal_strlit("if");
            assert("null"@.len() != "if"@.len());
            reveal_strlit("else");
            assert("null"@[0] != "else"@[0]);
            reveal_strlit("for");
            assert("null"@.len() != "for"@.len());
            reveal_strlit("while");
            assert("null"@.len() != "while"@.len());
            reveal_strlit("in");
            assert("null"@.len() != "in"@.len());
            reveal_strlit("do");
            assert("null"@.len() != "do"@.len());
            reveal_strlit("true");
            assert("null"@[0] != "true"@[0]);
            reveal_strlit("false");
            assert("null"@.len() != "false"@.len());
        },
        Token::And => {
            reveal_strlit("and");
            reveal_strlit("procedure");
            assert("and"@.len() != "procedure"@.len());
            reveal_strlit("function");
            assert("and"@.len() != "function"@.len());
            reveal_strlit("var");
            assert("and"@[0] != "var"@[0]);
            reveal_strlit("val");
            assert("and"@[0] != "val"@[0]);
            reveal_strlit("if");
            assert("and"@.len() != "if"@.len());
            reveal_strlit("else");
            assert("and"@.len() != "else"@.len());
            reveal_strlit("for");
            assert("and"@[0] != "for"@[0]);
            reveal_strlit("while");
            assert("and"@.len() != "while"@.len());
            reveal_strlit("in");
            assert("and"@.len() != "in"@.len());
            reveal_strlit("do");
            assert("and"@.len() != "do"@.len());
            reveal_strlit("true");
            assert("and"@.len() != "true"@.len());
            reveal_strlit("false");
            assert("and"@.len() != "false"@.len());
            reveal_strlit("null");
            assert("and"@.len() != "null"@.len());
        },
        Token::Or => {
            reveal_strlit("or");
            reveal_strlit("procedure");
            assert("or"@.len() != "procedure"@.len());
            reveal_strlit("function");
            assert("or"@.len() != "function"@.len());
            reveal_strlit("var");
            assert("or"@.len() != "var"@.len());
            reveal_strlit("val");
            assert("or"@.len() != "val"@.len());
            reveal_strlit("if");
            assert("or"@[0] != "if"@[0]);
            reveal_strlit("else");
            assert("or"@.len() != "else"@.len());
            reveal_strlit("for");
            assert("or"@.len() != "for"@.len());
            reveal_strlit("while");
            assert("or"@.len() != "while"@.len());
            reveal_strlit("in");
            assert("or"@[0] != "in"@[0]);
            reveal_strlit("do");
            assert("or"@[0] != "do"@[0]);
            reveal_strlit("true");
            assert("or"@.len() != "true"@.len());
            reveal_strlit("false");
            assert("or"@.len() != "false"@.len());
            reveal_strlit("null");
            assert("or"@.len() != "null"@.len());
            reveal_strlit("and");
            assert("or"@.len() != "and"@.len());
        },
        Token::Not => {
            reveal_strlit("not");
            reveal_strlit("procedure");
            assert("not"@.len() != "procedure"@.len());
            reveal_strlit("function");
            assert("not"@.len() != "function"@.len());
            reveal_strlit("var");
            assert("not"@[0] != "var"@[0]);
            reveal_strlit("val");
            assert("not"@[0] != "val"@[0]);
            reveal_strlit("if");
            assert("not"@.len() != "if"@.len());
            reveal_strlit("else");
            assert("not"@.len() != "else"@.len());
            reveal_strlit("for");
            assert("not"@[0] != "for"@[0]);
            reveal_strlit("while");
            assert("not"@.len() != "while"@.len());
            reveal_strlit("in");
            assert("not"@.len() != "in"@.len());
            reveal_strlit("do");
            assert("not"@.len() != "do"@.len());
            reveal_strlit("true");
            assert("not"@.len() != "true"@.len());
            reveal_strlit("false");
            assert("not"@.len() != "false"@.len());
            reveal_strlit("null");
            assert("not"@.len() != "null"@.len());
            reveal_strlit("and");
            assert("not"@[0] != "and"@[0]);
            reveal_strlit("or");
            assert("not"@.len() != "or"@.len());
        },
        Token::Return => {
            reveal_strlit("return");
            reveal_strlit("procedure");
            assert("return"@.len() != "procedure"@.len());
            reveal_strlit("function");
            assert("return"@.len() != "function"@.len());
            reveal_strlit("var");
            assert("return"@.len() != "var"@.len());
            reveal_strlit("val");
            assert("return"@.len() != "val"@.len());
            reveal_strlit("if");
            assert("return"@.len() != "if"@.len());
            reveal_strlit("else");
            assert("return"@.len() != "else"@.len());
            reveal_strlit("for");
            assert("return"@.len() != "for"@.len());
            reveal_strlit("while");
            assert("return"@.len() != "while"@.len());
            reveal_strlit("in");
            assert("return"@.len() != "in"@.len());
            reveal_strlit("do");
            assert("return"@.len() != "do"@.len());
            reveal_strlit("true");
            assert("return"@.len() != "true"@.len());
            reveal_strlit("false");
            assert("return"@.len() != "false"@.len());
            reveal_strlit("null");
            assert("return"@.len() != "null"@.len());
            reveal_strlit("and");
            assert("return"@.len() != "and"@.len());
            reveal_strlit("or");
            assert("return"@.len() != "or"@.len());
            reveal_strlit("not");
            assert("return"@.len() != "not"@.len());
        },
        Token::Spawn => {
            reveal_strlit("spawn");
            reveal_strlit("procedure");
            assert("spawn"@.len() != "procedure"@.len());
            reveal_strlit("function");
            assert("spawn"@.len() != "function"@.len());
            reveal_strlit("var");
            assert("spawn"@.len() != "var"@.len());
            reveal_strlit("val");
            assert("spawn"@.len() != "val"@.len());
            reveal_strlit("if");
            assert("spawn"@.len() != "if"@.len());
            reveal_strlit("else");
            assert("spawn"@.len() != "else"@.len());
            reveal_strlit("for");
            assert("spawn"@.len() != "for"@.len());
            reveal_strlit("while");
            assert("spawn"@[0] != "while"@[0]);
            reveal_strlit("in");
            assert("spawn"@.len() != "in"@.len());
            reveal_strlit("do");
            assert("spawn"@.len() != "do"@.len());
            reveal_strlit("true");
            assert("spawn"@.len() != "true"@.len());
            reveal_strlit("false");
            assert("spawn"@[0] != "false"@[0]);
            reveal_strlit("null");
            assert("spawn"@.len() != "null"@.len());
            reveal_strlit("and");
            assert("spawn"@.len() != "and"@.len());
            reveal_strlit("or");
            assert("spawn"@.len() != "or"@.len());
            reveal_strlit("not");
            assert("spawn"@.len() != "not"@.len());
            reveal_strlit("return");
            assert("spawn"@.len() != "return"@.len());
        },
        Token::Channel => {
            reveal_strlit("channel");
            reveal_strlit("procedure");
            assert("channel"@.len() != "procedure"@.len());
            reveal_strlit("function");
            assert("channel"@.len() != "function"@.len());
            reveal_strlit("var");
            assert("channel"@.len() != "var"@.len());
            reveal_strlit("val");
            assert("channel"@.len() != "val"@.len());
            reveal_strlit("if");
            assert("channel"@.len() != "if"@.len());
            reveal_strlit("else");
            assert("channel"@.len() != "else"@.len());
            reveal_strlit("for");
            assert("channel"@.len() != "for"@.len());
            reveal_strlit("while");
            assert("channel"@.len() != "while"@.len());
            reveal_strlit("in");
            assert("channel"@.len() != "in"@.len());
            reveal_strlit("do");
            assert("channel"@.len() != "do"@.len());
            reveal_strlit("true");
            assert("channel"@.len() != "true"@.len());
            reveal_strlit("false");
            assert("channel"@.len() != "false"@.len());
            reveal_strlit("null");
            assert("channel"@.len() != "null"@.len());
            reveal_strlit("and");
            assert("channel"@.len() != "and"@.len());
            reveal_strlit("or");
            assert("channel"@.len() != "or"@.len());
            reveal_strlit("not");
            assert("channel"@.len() != "not"@.len());
            reveal_strlit("return");
            assert("channel"@.len() != "return"@.len());
            reveal_strlit("spawn");
            assert("channel"@.len() != "spawn"@.len());
        },
        Token::Send => {
            reveal_strlit("send");
            reveal_strlit("procedure");
            assert("send"@.len() != "procedure"@.len());
            reveal_strlit("function");
            assert("send"@.len() != "function"@.len());
            reveal_strlit("var");
            assert("send"@.len() != "var"@.len());
            reveal_strlit("val");
            assert("send"@.len() != "val"@.len());
            reveal_strlit("if");
            assert("send"@.len() != "if"@.len());
            reveal_strlit("else");
            assert("send"@[0] != "else"@[0]);
            reveal_strlit("for");
            assert("send"@.len() != "for"@.len());
            reveal_strlit("while");
            assert("send"@.len() != "while"@.len());
            reveal_strlit("in");
            assert("send"@.len() != "in"@.len());
            reveal_strlit("do");
            assert("send"@.len() != "do"@.len());
            reveal_strlit("true");
            assert("send"@[0] != "true"@[0]);
            reveal_strlit("false");
            assert("send"@.len() != "false"@.len());
            reveal_strlit("null");
            assert("send"@[0] != "null"@[0]);
            reveal_strlit("and");
            assert("send"@.len() != "and"@.len());
            reveal_strlit("or");
            assert("send"@.len() != "or"@.len());
            reveal_strlit("not");
            assert("send"@.len() != "not"@.len());
            reveal_strlit("return");
            assert("send"@.len() != "return"@.len());
            reveal_strlit("spawn");
            assert("send"@.len() != "spawn"@.len());
            reveal_strlit("channel");
            assert("send"@.len() != "channel"@.len());
        },
        Token::Receive => {
            reveal_strlit("receive");
            reveal_strlit("procedure");
            assert("receive"@.len() != "procedure"@.len());
            reveal_strlit("function");
            assert("receive"@.len() != "function"@.len());
            reveal_strlit("var");
            assert("receive"@.len() != "var"@.len());
            reveal_strlit("val");
            assert("receive"@.len() != "val"@.len());
            reveal_strlit("if");
            assert("receive"@.len() != "if"@.len());
            reveal_strlit("else");
            assert("receive"@.len() != "else"@.len());
            reveal_strlit("for");
            assert("receive"@.len() != "for"@.len());
            reveal_strlit("while");
            assert("receive"@.len() != "while"@.len());
            reveal_strlit("in");
            assert("receive"@.len() != "in"@.len());
            reveal_strlit("do");
            assert("receive"@.len() != "do"@.len());
            reveal_strlit("true");
            assert("receive"@.len() != "true"@.len());
            reveal_strlit("false");
            assert("receive"@.len() != "false"@.len());
            reveal_strlit("null");
            assert("receive"@.len() != "null"@.len());
            reveal_strlit("and");
            assert("receive"@.len() != "and"@.len());
            reveal_strlit("or");
            assert("receive"@.len() != "or"@.len());
            reveal_strlit("not");
            assert("receive"@.len() != "not"@.len());
            reveal_strlit("return");
            assert("receive"@.len() != "return"@.len());
            reveal_strlit("spawn");
            assert("receive"@.len() != "spawn"@.len());
            reveal_strlit("channel");
            assert("receive"@[0] != "channel"@[0]);
            reveal_strlit("send");
            assert("receive"@.len() != "send"@.len());
        },
        Token::Parallel => {
            reveal_strlit("parallel");
            reveal_strlit("procedure");
            assert("parallel"@.len() != "procedure"@.len());
            reveal_strlit("function");
            assert("parallel"@[0] != "function"@[0]);
            reveal_strlit("var");
            assert("parallel"@.len() != "var"@.len());
            reveal_strlit("val");
            assert("parallel"@.len() != "val"@.len());
            reveal_strlit("if");
            assert("parallel"@.len() != "if"@.len());
            reveal_strlit("else");
            assert("parallel"@.len() != "else"@.len());
            reveal_strlit("for");
            assert("parallel"@.len() != "for"@.len());
            reveal_strlit("while");
            assert("parallel"@.len() != "while"@.len());
            reveal_strlit("in");
            assert("parallel"@.len() != "in"@.len());
            reveal_strlit("do");
            assert("parallel"@.len() != "do"@.len());
            reveal_strlit("true");
            assert("parallel"@.len() != "true"@.len());
            reveal_strlit("false");
            assert("parallel"@.len() != "false"@.len());
            reveal_strlit("null");
            assert("parallel"@.len() != "null"@.len());
            reveal_strlit("and");
            assert("parallel"@.len() != "and"@.len());
            reveal_strlit("or");
            assert("parallel"@.len() != "or"@.len());
            reveal_strlit("not");
            assert("parallel"@.len() != "not"@.len());
            reveal_strlit("return");
            assert("parallel"@.len() != "return"@.len());
            reveal_strlit("spawn");
            assert("parallel"@.len() != "spawn"@.len());
            reveal_strlit("channel");
            assert("parallel"@.len() != "channel"@.len());
            reveal_strlit("send");
            assert("parallel"@.len() != "send"@.len());
            reveal_strlit("receive");
            assert("parallel"@.len() != "receive"@.len());
        },
        Token::SomeKw => {
            reveal_strlit("Some");
            reveal_strlit("procedure");
            assert("Some"@.len() != "procedure"@.len());
            reveal_strlit("function");
            assert("Some"@.len() != "function"@.len());
            reveal_strlit("var");
            assert("Some"@.len() != "var"@.len());
            reveal_strlit("val");
            assert("Some"@.len() != "val"@.len());
            reveal_strlit("if");
            assert("Some"@.len() != "if"@.len());
            reveal_strlit("else");
            assert("Some"@[0] != "else"@[0]);
            reveal_strlit("for");
            assert("Some"@.len() != "for"@.len());
            reveal_strlit("while");
            assert("Some"@.len() != "while"@.len());
            reveal_strlit("in");
            assert("Some"@.len() != "in"@.len());
            reveal_strlit("do");
            assert("Some"@.len() != "do"@.len());
            reveal_strlit("true");
            assert("Some"@[0] != "true"@[0]);
            reveal_strlit("false");
            assert("Some"@.len() != "false"@.len());
            reveal_strlit("null");
            assert("Some"@[0] != "null"@[0]);
            reveal_strlit("and");
            assert("Some"@.len() != "and"@.len());
            reveal_strlit("or");
            assert("Some"@.len() != "or"@.len());
            reveal_strlit("not");
            assert("Some"@.len() != "not"@.len());
            reveal_strlit("return");
            assert("Some"@.len() != "return"@.len());
            reveal_strlit("spawn");
            assert("Some"@.len() != "spawn"@.len());
            reveal_strlit("channel");
            assert("Some"@.len() != "channel"@.len());
            reveal_strlit("send");
            assert("Some"@[0] != "send"@[0]);
            reveal_strlit("receive");
            assert("Some"@.len() != "receive"@.len());
            reveal_strlit("parallel");
            assert("Some"@.len() != "parallel"@.len());
        },
        Token::NoneKw => {
            reveal_strlit("None");
            reveal_strlit("procedure");
            assert("None"@.len() != "procedure"@.len());
            reveal_strlit("function");
            assert("None"@.len() != "function"@.len());
            reveal_strlit("var");
            assert("None"@.len() != "var"@.len());
            reveal_strlit("val");
            assert("None"@.len() != "val"@.len());
            reveal_strlit("if");
            assert("None"@.len() != "if"@.len());
            reveal_strlit("else");
            assert("None"@[0] != "else"@[0]);
            reveal_strlit("for");
            assert("None"@.len() != "for"@.len());
            reveal_strlit("while");
            assert("None"@.len() != "while"@.len());
            reveal_strlit("in");
            assert("None"@.len() != "in"@.len());
            reveal_strlit("do");
            assert("None"@.len() != "do"@.len());
            reveal_strlit("true");
            assert("None"@[0] != "true"@[0]);
            reveal_strlit("false");
            assert("None"@.len() != "false"@.len());
            reveal_strlit("null");
            assert("None"@[0] != "null"@[0]);
            reveal_strlit("and");
            assert("None"@.len() != "and"@.len());
            reveal_strlit("or");
            assert("None"@.len() != "or"@.len());
            reveal_strlit("not");
            assert("None"@.len() != "not"@.len());
            reveal_strlit("return");
            assert("None"@.len() != "return"@.len());
            reveal_strlit("spawn");
            assert("None"@.len() != "spawn"@.len());
            reveal_strlit("channel");
            assert("None"@.len() != "channel"@.len());
            reveal_strlit("send");
            assert("None"@[0] != "send"@[0]);
            reveal_strlit("receive");
            assert("None"@.len() != "receive"@.len());
            reveal_strlit("parallel");
            assert("None"@.len() != "parallel"@.len());
            reveal_strlit("Some");
            assert("None"@[0] != "Some"@[0]);
        },
        Token::OkKw => {
            reveal_strlit("Ok");
            reveal_strlit("procedure");
            assert("Ok"@.len() != "procedure"@.len());
            reveal_strlit("function");
            assert("Ok"@.len() != "function"@.len());
            reveal_strlit("var");
            assert("Ok"@.len() != "var"@.len());
            reveal_strlit("val");
            assert("Ok"@.len() != "val"@.len());
            reveal_strlit("if");
            assert("Ok"@[0] != "if"@[0]);
            reveal_strlit("else");
            assert("Ok"@.len() != "else"@.len());
            reveal_strlit("for");
            assert("Ok"@.len() != "for"@.len());
            reveal_strlit("while");
            assert("Ok"@.len() != "while"@.len());
            reveal_strlit("in");
            assert("Ok"@[0] != "in"@[0]);
            reveal_strlit("do");
            assert("Ok"@[0] != "do"@[0]);
            reveal_strlit("true");
            assert("Ok"@.len() != "true"@.len());
            reveal_strlit("false");
            assert("Ok"@.len() != "false"@.len());
            reveal_strlit("null");
            assert("Ok"@.len() != "null"@.len());
            reveal_strlit("and");
            assert("Ok"@.len() != "and"@.len());
            reveal_strlit("or");
            assert("Ok"@[0] != "or"@[0]);
            reveal_strlit("not");
            assert("Ok"@.len() != "not"@.len());
            reveal_strlit("return");
            assert("Ok"@.len() != "return"@.len());
            reveal_strlit("spawn");
            assert("Ok"@.len() != "spawn"@.len());
            reveal_strlit("channel");
            assert("Ok"@.len() != "channel"@.len());
            reveal_strlit("send");
            assert("Ok"@.len() != "send"@.len());
            reveal_strlit("receive");
            assert("Ok"@.len() != "receive"@.len());
            reveal_strlit("parallel");
            assert("Ok"@.len() != "parallel"@.len());
            reveal_strlit("Some");
            assert("Ok"@.len() != "Some"@.len());
            reveal_strlit("None");
            assert("Ok"@.len() != "None"@.len());
        },
        Token::Error => {
            reveal_strlit("Error");
            reveal_strlit("procedure");
            assert("Error"@.len() != "procedure"@.len());
            reveal_strlit("function");
            assert("Error"@.len() != "function"@.len());
            reveal_strlit("var");
            assert("Error"@.len() != "var"@.len());
            reveal_strlit("val");
            assert("Error"@.len() != "val"@.len());
            reveal_strlit("if");
            assert("Error"@.len() != "if"@.len());
            reveal_strlit("else");
            assert("Error"@.len() != "else"@.len());
            reveal_strlit("for");
            assert("Error"@.len() != "for"@.len());
            reveal_strlit("while");
            assert("Error"@[0] != "while"@[0]);
            reveal_strlit("in");
            assert("Error"@.len() != "in"@.len());
            reveal_strlit("do");
            assert("Error"@.len() != "do"@.len());
            reveal_strlit("true");
            assert("Error"@.len() != "true"@.len());
            reveal_strlit("false");
            assert("Error"@[0] != "false"@[0]);
            reveal_strlit("null");
            assert("Error"@.len() != "null"@.len());
            reveal_strlit("and");
            assert("Error"@.len() != "and"@.len());
            reveal_strlit("or");
            assert("Error"@.len() != "or"@.len());
            reveal_strlit("not");
            assert("Error"@.len() != "not"@.len());
            reveal_strlit("return");
            assert("Error"@.len() != "return"@.len());
            reveal_strlit("spawn");
            assert("Error"@[0] != "spawn"@[0]);
            reveal_strlit("channel");
            assert("Error"@.len() != "channel"@.len());
            reveal_strlit("send");
            assert("Error"@.len() != "send"@.len());
            reveal_strlit("receive");
            assert("Error"@.len() != "receive"@.len());
            reveal_strlit("parallel");
            assert("Error"@.len() != "parallel"@.len());
            reveal_strlit("Some");
            assert("Error"@.len() != "Some"@.len());
            reveal_strlit("None");
            assert("Error"@.len() != "None"@.len());
            reveal_strlit("Ok");
            assert("Error"@.len() != "Ok"@.len());
        },
        Token::Break => {
            reveal_strlit("break");
            reveal_strlit("procedure");
            assert("break"@.len() != "procedure"@.len());
            reveal_strlit("function");
            assert("break"@.len() != "function"@.len());
            reveal_strlit("var");
            assert("break"@.len() != "var"@.len());
            reveal_strlit("val");
            assert("break"@.len() != "val"@.len());
            reveal_strlit("if");
            assert("break"@.len() != "if"@.len());
            reveal_strlit("else");
            assert("break"@.len() != "else"@.len());
            reveal_strlit("for");
            assert("break"@.len() != "for"@.len());
            reveal_strlit("while");
            assert("break"@[0] != "while"@[0]);
            reveal_strlit("in");
            assert("break"@.len() != "in"@.len());
            reveal_strlit("do");
            assert("break"@.len() != "do"@.len());
            reveal_strlit("true");
            assert("break"@.len() != "true"@.len());
            reveal_strlit("false");
            assert("break"@[0] != "false"@[0]);
            reveal_strlit("null");
            assert("break"@.len() != "null"@.len());
            reveal_strlit("and");
            assert("break"@.len() != "and"@.len());
            reveal_strlit("or");
            assert("break"@.len() != "or"@.len());
            reveal_strlit("not");
            assert("break"@.len() != "not"@.len());
            reveal_strlit("return");
            assert("break"@.len() != "return"@.len());
            reveal_strlit("spawn");
            assert("break"@[0] != "spawn"@[0]);
            reveal_strlit("channel");
            assert("break"@.len() != "channel"@.len());
            reveal_strlit("send");
            assert("break"@.len() != "send"@.len());
            reveal_strlit("receive");
            assert("break"@.len() != "receive"@.len());
            reveal_strlit("parallel");
            assert("break"@.len() != "parallel"@.len());
            reveal_strlit("Some");
            assert("break"@.len() != "Some"@.len());
            reveal_strlit("None");
            assert("break"@.len() != "None"@.len());
            reveal_strlit("Ok");
            assert("break"@.len() != "Ok"@.len());
            reveal_strlit("Error");
            assert("break"@[0] != "Error"@[0]);
        },
        Token::Continue => {
            reveal_strlit("continue");
            reveal_strlit("procedure");
            assert("continue"@.len() != "procedure"@.len());
            reveal_strlit("function");
            assert("continue"@[0] != "function"@[0]);
            reveal_strlit("var");
            assert("continue"@.len() != "var"@.len());
            reveal_strlit("val");
            assert("continue"@.len() != "val"@.len());
            reveal_strlit("if");
            assert("continue"@.len() != "if"@.len());
            reveal_strlit("else");
            assert("continue"@.len() != "else"@.len());
            reveal_strlit("for");
            assert("continue"@.len() != "for"@.len());
            reveal_strlit("while");
            assert("continue"@.len() != "while"@.len());
            reveal_strlit("in");
            assert("continue"@.len() != "in"@.len());
            reveal_strlit("do");
            assert("continue"@.len() != "do"@.len());
            reveal_strlit("true");
            assert("continue"@.len() != "true"@.len());
            reveal_strlit("false");
            assert("continue"@.len() != "false"@.len());
            reveal_strlit("null");
            assert("continue"@.len() != "null"@.len());
            reveal_strlit("and");
            assert("continue"@.len() != "and"@.len());
            reveal_strlit("or");
            assert("continue"@.len() != "or"@.len());
            reveal_strlit("not");
            assert("continue"@.len() != "not"@.len());
            reveal_strlit("return");
            assert("continue"@.len() != "return"@.len());
            reveal_strlit("spawn");
            assert("continue"@.len() != "spawn"@.len());
            reveal_strlit("channel");
            assert("continue"@.len() != "channel"@.len());
            reveal_strlit("send");
            assert("continue"@.len() != "send"@.len());
            reveal_strlit("receive");
            assert("continue"@.len() != "receive"@.len());
            reveal_strlit("parallel");
            assert("continue"@[0] != "parallel"@[0]);
            reveal_strlit("Some");
            assert("continue"@.len() != "Some"@.len());
            reveal_strlit("None");
            assert("continue"@.len() != "None"@.len());
            reveal_strlit("Ok");
            assert("continue"@.len() != "Ok"@.len());
            reveal_strlit("Error");
            assert("continue"@.len() != "Error"@.len());
            reveal_strlit("break");
            assert("continue"@.len() != "break"@.len());
        },
        Token::Match => {
            reveal_strlit("match");
            reveal_strlit("procedure");
            assert("match"@.len() != "procedure"@.len());
            reveal_strlit("function");
            assert("match"@.len() != "function"@.len());
            reveal_strlit("var");
            assert("match"@.len() != "var"@.len());
            reveal_strlit("val");
            assert("match"@.len() != "val"@.len());
            reveal_strlit("if");
            assert("match"@.len() != "if"@.len());
            reveal_strlit("else");
            assert("match"@.len() != "else"@.len());
            reveal_strlit("for");
            assert("match"@.len() != "for"@.len());
            reveal_strlit("while");
            assert("match"@[0] != "while"@[0]);
            reveal_strlit("in");
            assert("match"@.len() != "in"@.len());
            reveal_strlit("do");
            assert("match"@.len() != "do"@.len());
            reveal_strlit("true");
            assert("match"@.len() != "true"@.len());
            reveal_strlit("false");
            assert("match"@[0] != "false"@[0]);
            reveal_strlit("null");
            assert("match"@.len() != "null"@.len());
            reveal_strlit("and");
            assert("match"@.len() != "and"@.len());
            reveal_strlit("or");
            assert("match"@.len() != "or"@.len());
            reveal_strlit("not");
            assert("match"@.len() != "not"@.len());
            reveal_strlit("return");
            assert("match"@.len() != "return"@.len());
            reveal_strlit("spawn");
            assert("match"@[0] != "spawn"@[0]);
            reveal_strlit("channel");
            assert("match"@.len() != "channel"@.len());
            reveal_strlit("send");
            assert("match"@.len() != "send"@.len());
            reveal_strlit("receive");
            assert("match"@.len() != "receive"@.len());
            reveal_strlit("parallel");
            assert("match"@.len() != "parallel"@.len());
            reveal_strlit("Some");
            assert("match"@.len() != "Some"@.len());
            reveal_strlit("None");
            assert("match"@.len() != "None"@.len());
            reveal_strlit("Ok");
            assert("match"@.len() != "Ok"@.len());
            reveal_strlit("Error");
            assert("match"@[0] != "Error"@[0]);
            reveal_strlit("break");
            assert("match"@[0] != "break"@[0]);
            reveal_strlit("continue");
            assert("match"@.len() != "continue"@.len());
        },
        Token::Import => {
            reveal_strlit("import");
            reveal_strlit("procedure");
            assert("import"@.len() != "procedure"@.len());
            reveal_strlit("function");
            assert("import"@.len() != "function"@.len());
            reveal_strlit("var");
            assert("import"@.len() != "var"@.len());
            reveal_strlit("val");
            assert("import"@.len() != "val"@.len());
            reveal_strlit("if");
            assert("import"@.len() != "if"@.len());
            reveal_strlit("else");
            assert("import"@.len() != "else"@.len());
            reveal_strlit("for");
            assert("import"@.len() != "for"@.len());
            reveal_strlit("while");
            assert("import"@.len() != "while"@.len());
            reveal_strlit("in");
            assert("import"@.len() != "in"@.len());
            reveal_strlit("do");
            assert("import"@.len() != "do"@.len());
            reveal_strlit("true");
            assert("import"@.len() != "true"@.len());
            reveal_strlit("false");
            assert("import"@.len() != "false"@.len());
            reveal_strlit("null");
            assert("import"@.len() != "null"@.len());
            reveal_strlit("and");
            assert("import"@.len() != "and"@.len());
            reveal_strlit("or");
            assert("import"@.len() != "or"@.len());
            reveal_strlit("not");
            assert("import"@.len() != "not"@.len());
            reveal_strlit("return");
            assert("import"@[0] != "return"@[0]);
            reveal_strlit("spawn");
            assert("import"@.len() != "spawn"@.len());
            reveal_strlit("channel");
            assert("import"@.len() != "channel"@.len());
            reveal_strlit("send");
            assert("import"@.len() != "send"@.len());
            reveal_strlit("receive");
            assert("import"@.len() != "receive"@.len());
            reveal_strlit("parallel");
            assert("import"@.len() != "parallel"@.len());
            reveal_strlit("Some");
            assert("import"@.len() != "Some"@.len());
            reveal_strlit("None");
            assert("import"@.len() != "None"@.len());
            reveal_strlit("Ok");
            assert("import"@.len() != "Ok"@.len());
            reveal_strlit("Error");
            assert("import"@.len() != "Error"@.len());
            reveal_strlit("break");
            assert("import"@.len() != "break"@.len());
            reveal_strlit("continue");
            assert("import"@.len() != "continue"@.len());
            reveal_strlit("match");
            assert("import"@.len() != "match"@.len());
        },
        Token::Try => {
            reveal_strlit("try");
            reveal_strlit("procedure");
            assert("try"@.len() != "procedure"@.len());
            reveal_strlit("function");
            assert("try"@.len() != "function"@.len());
            reveal_strlit("var");
            assert("try"@[0] != "var"@[0]);
            reveal_strlit("val");
            assert("try"@[0] != "val"@[0]);
            reveal_strlit("if");
            assert("try"@.len() != "if"@.len());
            reveal_strlit("else");
            assert("try"@.len() != "else"@.len());
            reveal_strlit("for");
            assert("try"@[0] != "for"@[0]);
            reveal_strlit("while");
            assert("try"@.len() != "while"@.len());
            reveal_strlit("in");
            assert("try"@.len() != "in"@.len());
            reveal_strlit("do");
            assert("try"@.len() != "do"@.len());
            reveal_strlit("true");
            assert("try"@.len() != "true"@.len());
            reveal_strlit("false");
            assert("try"@.len() != "false"@.len());
            reveal_strlit("null");
            assert("try"@.len() != "null"@.len());
            reveal_strlit("and");
            assert("try"@[0] != "and"@[0]);
            reveal_strlit("or");
            assert("try"@.len() != "or"@.len());
            reveal_strlit("not");
            assert("try"@[0] != "not"@[0]);
            reveal_strlit("return");
            assert("try"@.len() != "return"@.len());
            reveal_strlit("spawn");
            assert("try"@.len() != "spawn"@.len());
            reveal_strlit("channel");
            assert("try"@.len() != "channel"@.len());
            reveal_strlit("send");
            assert("try"@.len() != "send"@.len());
            reveal_strlit("receive");
            assert("try"@.len() != "receive"@.len());
            reveal_strlit("parallel");
            assert("try"@.len() != "parallel"@.len());
            reveal_strlit("Some");
            assert("try"@.len() != "Some"@.len());
            reveal_strlit("None");
            assert("try"@.len() != "None"@.len());
            reveal_strlit("Ok");
            assert("try"@.len() != "Ok"@.len());
            reveal_strlit("Error");
            assert("try"@.len() != "Error"@.len());
            reveal_strlit("break");
            assert("try"@.len() != "break"@.len());
            reveal_strlit("continue");
            assert("try"@.len() != "continue"@.len());
            reveal_strlit("match");
            assert("try"@.len() != "match"@.len());
            reveal_strlit("import");
            assert("try"@.len() != "import"@.len());
        },
        Token::Catch => {
            reveal_strlit("catch");
            reveal_strlit("procedure");
            assert("catch"@.len() != "procedure"@.len());
            reveal_strlit("function");
            assert("catch"@.len() != "function"@.len());
            reveal_strlit("var");
            assert("catch"@.len() != "var"@.len());
            reveal_strlit("val");
            assert("catch"@.len() != "val"@.len());
            reveal_strlit("if");
            assert("catch"@.len() != "if"@.len());
            reveal_strlit("else");
            assert("catch"@.len() != "else"@.len());
            reveal_strlit("for");
            assert("catch"@.len() != "for"@.len());
            reveal_strlit("while");
            assert("catch"@[0] != "while"@[0]);
            reveal_strlit("in");
            assert("catch"@.len() != "in"@.len());
            reveal_strlit("do");
            assert("catch"@.len() != "do"@.len());
            reveal_strlit("true");
            assert("catch"@.len() != "true"@.len());
            reveal_strlit("false");
            assert("catch"@[0] != "false"@[0]);
            reveal_strlit("null");
            assert("catch"@.len() != "null"@.len());
            reveal_strlit("and");
            assert("catch"@.len() != "and"@.len());
            reveal_strlit("or");
            assert("catch"@.len() != "or"@.len());
            reveal_strlit("not");
            assert("catch"@.len() != "not"@.len());
            reveal_strlit("return");
            assert("catch"@.len() != "return"@.len());
            reveal_strlit("spawn");
            assert("catch"@[0] != "spawn"@[0]);
            reveal_strlit("channel");
            assert("catch"@.len() != "channel"@.len());
            reveal_strlit("send");
            assert("catch"@.len() != "send"@.len());
            reveal_strlit("receive");
            assert("catch"@.len() != "receive"@.len());
            reveal_strlit("parallel");
            assert("catch"@.len() != "parallel"@.len());
            reveal_strlit("Some");
            assert("catch"@.len() != "Some"@.len());
            reveal_strlit("None");
            assert("catch"@.len() != "None"@.len());
            reveal_strlit("Ok");
            assert("catch"@.len() != "Ok"@.len());
            reveal_strlit("Error");
            assert("catch"@[0] != "Error"@[0]);
            reveal_strlit("break");
            assert("catch"@[0] != "break"@[0]);
            reveal_strlit("continue");
            assert("catch"@.len() != "continue"@.len());
            reveal_strlit("match");
            assert("catch"@[0] != "match"@[0]);
            reveal_strlit("import");
            assert("catch"@.len() != "import"@.len());
            reveal_strlit("try");
            assert("catch"@.len() != "try"@.len());
        },
        Token::Finally => {
            reveal_strlit("finally");
            reveal_strlit("procedure");
            assert("finally"@.len() != "procedure"@.len());
            reveal_strlit("function");
            assert("finally"@.len() != "function"@.len());
            reveal_strlit("var");
            assert("finally"@.len() != "var"@.len());
            reveal_strlit("val");
            assert("finally"@.len() != "val"@.len());
            reveal_strlit("if");
            assert("finally"@.len() != "if"@.len());
            reveal_strlit("else");
            assert("finally"@.len() != "else"@.len());
            reveal_strlit("for");
            assert("finally"@.len() != "for"@.len());
            reveal_strlit("while");
            assert("finally"@.len() != "while"@.len());
            reveal_strlit("in");
            assert("finally"@.len() != "in"@.len());
            reveal_strlit("do");
            assert("finally"@.len() != "do"@.len());
            reveal_strlit("true");
            assert("finally"@.len() != "true"@.len());
            reveal_strlit("false");
            assert("finally"@.len() != "false"@.len());
            reveal_strlit("null");
            assert("finally"@.len() != "null"@.len());
            reveal_strlit("and");
            assert("finally"@.len() != "and"@.len());
            reveal_strlit("or");
            assert("finally"@.len() != "or"@.len());
            reveal_strlit("not");
            assert("finally"@.len() != "not"@.len());
            reveal_strlit("return");
            assert("finally"@.len() != "return"@.len());
            reveal_strlit("spawn");
            assert("finally"@.len() != "spawn"@.len());
            reveal_strlit("channel");
            assert("finally"@[0] != "channel"@[0]);
            reveal_strlit("send");
            assert("finally"@.len() != "send"@.len());
            reveal_strlit("receive");
            assert("finally"@[0] != "receive"@[0]);
            reveal_strlit("parallel");
            assert("finally"@.len() != "parallel"@.len());
            reveal_strlit("Some");
            assert("finally"@.len() != "Some"@.len());
            reveal_strlit("None");
            assert("finally"@.len() != "None"@.len());
            reveal_strlit("Ok");
            assert("finally"@.len() != "Ok"@.len());
            reveal_strlit("Error");
            assert("finally"@.len() != "Error"@.len());
            reveal_strlit("break");
            assert("finally"@.len() != "break"@.len());
            reveal_strlit("continue");
            assert("finally"@.len() != "continue"@.len());
            reveal_strlit("match");
            assert("finally"@.len() != "match"@.len());
            reveal_strlit("import");
            assert("finally"@.len() != "import"@.len());
            reveal_strlit("try");
            assert("finally"@.len() != "try"@.len());
            reveal_strlit("catch");
            assert("finally"@.len() != "catch"@.len());
        },
        Token::Region => {
            reveal_strlit("region");
            reveal_strlit("procedure");
            assert("region"@.len() != "procedure"@.len());
            reveal_strlit("function");
            assert("region"@.len() != "function"@.len());
            reveal_strlit("var");
            assert("region"@.len() != "var"@.len());
            reveal_strlit("val");
            assert("region"@.len() != "val"@.len());
            reveal_strlit("if");
            assert("region"@.len() != "if"@.len());
            reveal_strlit("else");
            assert("region"@.len() != "else"@.len());
            reveal_strlit("for");
            assert("region"@.len() != "for"@.len());
            reveal_strlit("while");
            assert("region"@.len() != "while"@.len());
            reveal_strlit("in");
            assert("region"@.len() != "in"@.len());
            reveal_strlit("do");
            assert("region"@.len() != "do"@.len());
            reveal_strlit("true");
            assert("region"@.len() != "true"@.len());
            reveal_strlit("false");
            assert("region"@.len() != "false"@.len());
            reveal_strlit("null");
            assert("region"@.len() != "null"@.len());
            reveal_strlit("and");
            assert("region"@.len() != "and"@.len());
            reveal_strlit("or");
            assert("region"@.len() != "or"@.len());
            reveal_strlit("not");
            assert("region"@.len() != "not"@.len());
            reveal_strlit("return");
            assert("region"@[2] != "return"@[2]);
            reveal_strlit("spawn");
            assert("region"@.len() != "spawn"@.len());
            reveal_strlit("channel");
            assert("region"@.len() != "channel"@.len());
            reveal_strlit("send");
            assert("region"@.len() != "send"@.len());
            reveal_strlit("receive");
            assert("region"@.len() != "receive"@.len());
            reveal_strlit("parallel");
            assert("region"@.len() != "parallel"@.len());
            reveal_strlit("Some");
            assert("region"@.len() != "Some"@.len());
            reveal_strlit("None");
            assert("region"@.len() != "None"@.len());
            reveal_strlit("Ok");
            assert("region"@.len() != "Ok"@.len());
            reveal_strlit("Error");
            assert("region"@.len() != "Error"@.len());
            reveal_strlit("break");
            assert("region"@.len() != "break"@.len());
            reveal_strlit("continue");
            assert("region"@.len() != "continue"@.len());
            reveal_strlit("match");
            assert("region"@.len() != "match"@.len());
            reveal_strlit("import");
            assert("region"@[0] != "import"@[0]);
            reveal_strlit("try");
            assert("region"@.len() != "try"@.len());
            reveal_strlit("catch");
            assert("region"@.len() != "catch"@.len());
            reveal_strlit("finally");
            assert("region"@.len() != "finally"@.len());
        },
        Token::Unsafe => {
            reveal_strlit("unsafe");
            reveal_strlit("procedure");
            assert("unsafe"@.len() != "procedure"@.len());
            reveal_strlit("function");
            assert("unsafe"@.len() != "function"@.len());
            reveal_strlit("var");
            assert("unsafe"@.len() != "var"@.len());
            reveal_strlit("val");
            assert("unsafe"@.len() != "val"@.len());
            reveal_strlit("if");
            assert("unsafe"@.len() != "if"@.len());
            reveal_strlit("else");
            assert("unsafe"@.len() != "else"@.len());
            reveal_strlit("for");
            assert("unsafe"@.len() != "for"@.len());
            reveal_strlit("while");
            assert("unsafe"@.len() != "while"@.len());
            reveal_strlit("in");
            assert("unsafe"@.len() != "in"@.len());
            reveal_strlit("do");
            assert("unsafe"@.len() != "do"@.len());
            reveal_strlit("true");
            assert("unsafe"@.len() != "true"@.len());
            reveal_strlit("false");
            assert("unsafe"@.len() != "false"@.len());
            reveal_strlit("null");
            assert("unsafe"@.len() != "null"@.len());
            reveal_strlit("and");
            assert("unsafe"@.len() != "and"@.len());
            reveal_strlit("or");
            assert("unsafe"@.len() != "or"@.len());
            reveal_strlit("not");
            assert("unsafe"@.len() != "not"@.len());
            reveal_strlit("return");
            assert("unsafe"@[0] != "return"@[0]);
            reveal_strlit("spawn");
            assert("unsafe"@.len() != "spawn"@.len());
            reveal_strlit("channel");
            assert("unsafe"@.len() != "channel"@.len());
            reveal_strlit("send");
            assert("unsafe"@.len() != "send"@.len());
            reveal_strlit("receive");
            assert("unsafe"@.len() != "receive"@.len());
            reveal_strlit("parallel");
            assert("unsafe"@.len() != "parallel"@.len());
            reveal_strlit("Some");
            assert("unsafe"@.len() != "Some"@.len());
            reveal_strlit("None");
            assert("unsafe"@.len() != "None"@.len());
            reveal_strlit("Ok");
            assert("unsafe"@.len() != "Ok"@.len());
            reveal_strlit("Error");
            assert("unsafe"@.len() != "Error"@.len());
            reveal_strlit("break");
            assert("unsafe"@.len() != "break"@.len());
            reveal_strlit("continue");
            assert("unsafe"@.len() != "continue"@.len());
            reveal_strlit("match");
            assert("unsafe"@.len() != "match"@.len());
            reveal_strlit("import");
            assert("unsafe"@[0] != "import"@[0]);
            reveal_strlit("try");
            assert("unsafe"@.len() != "try"@.len());
            reveal_strlit("catch");
            assert("unsafe"@.len() != "catch"@.len());
            reveal_strlit("finally");
            assert("unsafe"@.len() != "finally"@.len());
            reveal_strlit("region");
            assert("unsafe"@[0] != "region"@[0]);
        },
        Token::Extern => {
            reveal_strlit("extern");
            reveal_strlit("procedure");
            assert("extern"@.len() != "procedure"@.len());
            reveal_strlit("function");
            assert("extern"@.len() != "function"@.len());
            reveal_strlit("var");
            assert("extern"@.len() != "var"@.len());
            reveal_strlit("val");
            assert("extern"@.len() != "val"@.len());
            reveal_strlit("if");
            assert("extern"@.len() != "if"@.len());
            reveal_strlit("else");
            assert("extern"@.len() != "else"@.len());
            reveal_strlit("for");
            assert("extern"@.len() != "for"@.len());
            reveal_strlit("while");
            assert("extern"@.len() != "while"@.len());
            reveal_strlit("in");
            assert("extern"@.len() != "in"@.len());
            reveal_strlit("do");
            assert("extern"@.len() != "do"@.len());
            reveal_strlit("true");
            assert("extern"@.len() != "true"@.len());
            reveal_strlit("false");
            assert("extern"@.len() != "false"@.len());
            reveal_strlit("null");
            assert("extern"@.len() != "null"@.len());
            reveal_strlit("and");
            assert("extern"@.len() != "and"@.len());
            reveal_strlit("or");
            assert("extern"@.len() != "or"@.len());
            reveal_strlit("not");
            assert("extern"@.len() != "not"@.len());
            reveal_strlit("return");
            assert("extern"@[0] != "return"@[0]);
            reveal_strlit("spawn");
            assert("extern"@.len() != "spawn"@.len());
            reveal_strlit("channel");
            assert("extern"@.len() != "channel"@.len());
            reveal_strlit("send");
            assert("extern"@.len() != "send"@.len());
            reveal_strlit("receive");
            assert("extern"@.len() != "receive"@.len());
            reveal_strlit("parallel");
            assert("extern"@.len() != "parallel"@.len());
            reveal_strlit("Some");
            assert("extern"@.len() != "Some"@.len());
            reveal_strlit("None");
            assert("extern"@.len() != "None"@.len());
            reveal_strlit("Ok");
            assert("extern"@.len() != "Ok"@.len());
            reveal_strlit("Error");
            assert("extern"@.len() != "Error"@.len());
            reveal_strlit("break");
            assert("extern"@.len() != "break"@.len());
            reveal_strlit("continue");
            assert("extern"@.len() != "continue"@.len());
            reveal_strlit("match");
            assert("extern"@.len() != "match"@.len());
            reveal_strlit("import");
            assert("extern"@[0] != "import"@[0]);
            reveal_strlit("try");
            assert("extern"@.len() != "try"@.len());
            reveal_strlit("catch");
            assert("extern"@.len() != "catch"@.len());
            reveal_strlit("finally");
            assert("extern"@.len() != "finally"@.len());
            reveal_strlit("region");
            assert("extern"@[0] != "region"@[0]);
            reveal_strlit("unsafe");
            assert("extern"@[0] != "unsafe"@[0]);
        },
        Token::From => {
            reveal_strlit("from");
            reveal_strlit("procedure");
            assert("from"@.len() != "procedure"@.len());
            reveal_strlit("function");
            assert("from"@.len() != "function"@.len());
            reveal_strlit("var");
            assert("from"@.len() != "var"@.len());
            reveal_strlit("val");
            assert("from"@.len() != "val"@.len());
            reveal_strlit("if");
            assert("from"@.len() != "if"@.len());
            reveal_strlit("else");
            assert("from"@[0] != "else"@[0]);
            reveal_strlit("for");
            assert("from"@.len() != "for"@.len());
            reveal_strlit("while");
            assert("from"@.len() != "while"@.len());
            reveal_strlit("in");
            assert("from"@.len() != "in"@.len());
            reveal_strlit("do");
            assert("from"@.len() != "do"@.len());
            reveal_strlit("true");
            assert("from"@[0] != "true"@[0]);
            reveal_strlit("false");
            assert("from"@.len() != "false"@.len());
            reveal_strlit("null");
            assert("from"@[0] != "null"@[0]);
            reveal_strlit("and");
            assert("from"@.len() != "and"@.len());
            reveal_strlit("or");
            assert("from"@.len() != "or"@.len());
            reveal_strlit("not");
            assert("from"@.len() != "not"@.len());
            reveal_strlit("return");
            assert("from"@.len() != "return"@.len());
            reveal_strlit("spawn");
            assert("from"@.len() != "spawn"@.len());
            reveal_strlit("channel");
            assert("from"@.len() != "channel"@.len());
            reveal_strlit("send");
            assert("from"@[0] != "send"@[0]);
            reveal_strlit("receive");
            assert("from"@.len() != "receive"@.len());
            reveal_strlit("parallel");
            assert("from"@.len() != "parallel"@.len());
            reveal_strlit("Some");
            assert("from"@[0] != "Some"@[0]);
            reveal_strlit("None");
            assert("from"@[0] != "None"@[0]);
            reveal_strlit("Ok");
            assert("from"@.len() != "Ok"@.len());
            reveal_strlit("Error");
            assert("from"@.len() != "Error"@.len());
            reveal_strlit("break");
            assert("from"@.len() != "break"@.len());
            reveal_strlit("continue");
            assert("from"@.len() != "continue"@.len());
            reveal_strlit("match");
            assert("from"@.len() != "match"@.len());
            reveal_strlit("import");
            assert("from"@.len() != "import"@.len());
            reveal_strlit("try");
            assert("from"@.len() != "try"@.len());
            reveal_strlit("catch");
            assert("from"@.len() != "catch"@.len());
            reveal_strlit("finally");
            assert("from"@.len() != "finally"@.len());
            reveal_strlit("region");
            assert("from"@.len() != "region"@.len());
            reveal_strlit("unsafe");
            assert("from"@.len() != "unsafe"@.len());
            reveal_strlit("extern");
            assert("from"@.len() != "extern"@.len());
        },
        Token::As => {
            reveal_strlit("as");
            reveal_strlit("procedure");
            assert("as"@.len() != "procedure"@.len());
            reveal_strlit("function");
            assert("as"@.len() != "function"@.len());
            reveal_strlit("var");
            assert("as"@.len() != "var"@.len());
            reveal_strlit("val");
            assert("as"@.len() != "val"@.len());
            reveal_strlit("if");
            assert("as"@[0] != "if"@[0]);
            reveal_strlit("else");
            assert("as"@.len() != "else"@.len());
            reveal_strlit("for");
            assert("as"@.len() != "for"@.len());
            reveal_strlit("while");
            assert("as"@.len() != "while"@.len());
            reveal_strlit("in");
            assert("as"@[0] != "in"@[0]);
            reveal_strlit("do");
            assert("as"@[0] != "do"@[0]);
            reveal_strlit("true");
            assert("as"@.len() != "true"@.len());
            reveal_strlit("false");
            assert("as"@.len() != "false"@.len());
            reveal_strlit("null");
            assert("as"@.len() != "null"@.len());
            reveal_strlit("and");
            assert("as"@.len() != "and"@.len());
            reveal_strlit("or");
            assert("as"@[0] != "or"@[0]);
            reveal_strlit("not");
            assert("as"@.len() != "not"@.len());
            reveal_strlit("return");
            assert("as"@.len() != "return"@.len());
            reveal_strlit("spawn");
            assert("as"@.len() != "spawn"@.len());
            reveal_strlit("channel");
            assert("as"@.len() != "channel"@.len());
            reveal_strlit("send");
            assert("as"@.len() != "send"@.len());
            reveal_strlit("receive");
            assert("as"@.len() != "receive"@.len());
            reveal_strlit("parallel");
            assert("as"@.len() != "parallel"@.len());
            reveal_strlit("Some");
            assert("as"@.len() != "Some"@.len());
            reveal_strlit("None");
            assert("as"@.len() != "None"@.len());
            reveal_strlit("Ok");
            assert("as"@[0] != "Ok"@[0]);
            reveal_strlit("Error");
            assert("as"@.len() != "Error"@.len());
            reveal_strlit("break");
            assert("as"@.len() != "break"@.len());
            reveal_strlit("continue");
            assert("as"@.len() != "continue"@.len());
            reveal_strlit("match");
            assert("as"@.len() != "match"@.len());
            reveal_strlit("import");
            assert("as"@.len() != "import"@.len());
            reveal_strlit("try");
            assert("as"@.len() != "try"@.len());
            reveal_strlit("catch");
            assert("as"@.len() != "catch"@.len());
            reveal_strlit("finally");
            assert("as"@.len() != "finally"@.len());
            reveal_strlit("region");
            assert("as"@.len() != "region"@.len());
            reveal_strlit("unsafe");
            assert("as"@.len() != "unsafe"@.len());
            reveal_strlit("extern");
            assert("as"@.len() != "extern"@.len());
            reveal_strlit("from");
            assert("as"@.len() != "from"@.len());
        },
        Token::Static => {
            reveal_strlit("static");
            reveal_strlit("procedure");
            assert("static"@.len() != "procedure"@.len());
            reveal_strlit("function");
            assert("static"@.len() != "function"@.len());
            reveal_strlit("var");
            assert("static"@.len() != "var"@.len());
            reveal_strlit("val");
            assert("static"@.len() != "val"@.len());
            reveal_strlit("if");
            assert("static"@.len() != "if"@.len());
            reveal_strlit("else");
            assert("static"@.len() != "else"@.len());
            reveal_strlit("for");
            assert("static"@.len() != "for"@.len());
            reveal_strlit("while");
            assert("static"@.len() != "while"@.len());
            reveal_strlit("in");
            assert("static"@.len() != "in"@.len());
            reveal_strlit("do");
            assert("static"@.len() != "do"@.len());
            reveal_strlit("true");
            assert("static"@.len() != "true"@.len());
            reveal_strlit("false");
            assert("static"@.len() != "false"@.len());
            reveal_strlit("null");
            assert("static"@.len() != "null"@.len());
            reveal_strlit("and");
            assert("static"@.len() != "and"@.len());
            reveal_strlit("or");
            assert("static"@.len() != "or"@.len());
            reveal_strlit("not");
            assert("static"@.len() != "not"@.len());
            reveal_strlit("return");
            assert("static"@[0] != "return"@[0]);
            reveal_strlit("spawn");
            assert("static"@.len() != "spawn"@.len());
            reveal_strlit("channel");
            assert("static"@.len() != "channel"@.len());
            reveal_strlit("send");
            assert("static"@.len() != "send"@.len());
            reveal_strlit("receive");
            assert("static"@.len() != "receive"@.len());
            reveal_strlit("parallel");
            assert("static"@.len() != "parallel"@.len());
            reveal_strlit("Some");
            assert("static"@.len() != "Some"@.len());
            reveal_strlit("None");
            assert("static"@.len() != "None"@.len());
            reveal_strlit("Ok");
            assert("static"@.len() != "Ok"@.len());
            reveal_strlit("Error");
            assert("static"@.len() != "Error"@.len());
            reveal_strlit("break");
            assert("static"@.len() != "break"@.len());
            reveal_strlit("continue");
            assert("static"@.len() != "continue"@.len());
            reveal_strlit("match");
            assert("static"@.len() != "match"@.len());
            reveal_strlit("import");
            assert("static"@[0] != "import"@[0]);
            reveal_strlit("try");
            assert("static"@.len() != "try"@.len());
            reveal_strlit("catch");
            assert("static"@.len() != "catch"@.len());
            reveal_strlit("finally");
            assert("static"@.len() != "finally"@.len());
            reveal_strlit("region");
            assert("static"@[0] != "region"@[0]);
            reveal_strlit("unsafe");
            assert("static"@[0] != "unsafe"@[0]);
            reveal_strlit("extern");
            assert("static"@[0] != "extern"@[0]);
            reveal_strlit("from");
            assert("static"@.len() != "from"@.len());
            reveal_strlit("as");
            assert("static"@.len() != "as"@.len());
        },
        Token::Dynamic => {
            reveal_strlit("dynamic");
            reveal_strlit("procedure");
            assert("dynamic"@.len() != "procedure"@.len());
            reveal_strlit("function");
            assert("dynamic"@.len() != "function"@.len());
            reveal_strlit("var");
            assert("dynamic"@.len() != "var"@.len());
            reveal_strlit("val");
            assert("dynamic"@.len() != "val"@.len());
            reveal_strlit("if");
            assert("dynamic"@.len() != "if"@.len());
            reveal_strlit("else");
            assert("dynamic"@.len() != "else"@.len());
            reveal_strlit("for");
            assert("dynamic"@.len() != "for"@.len());
            reveal_strlit("while");
            assert("dynamic"@.len() != "while"@.len());
            reveal_strlit("in");
            assert("dynamic"@.len() != "in"@.len());
            reveal_strlit("do");
            assert("dynamic"@.len() != "do"@.len());
            reveal_strlit("true");
            assert("dynamic"@.len() != "true"@.len());
            reveal_strlit("false");
            assert("dynamic"@.len() != "false"@.len());
            reveal_strlit("null");
            assert("dynamic"@.len() != "null"@.len());
            reveal_strlit("and");
            assert("dynamic"@.len() != "and"@.len());
            reveal_strlit("or");
            assert("dynamic"@.len() != "or"@.len());
            reveal_strlit("not");
            assert("dynamic"@.len() != "not"@.len());
            reveal_strlit("return");
            assert("dynamic"@.len() != "return"@.len());
            reveal_strlit("spawn");
            assert("dynamic"@.len() != "spawn"@.len());
            reveal_strlit("channel");
            assert("dynamic"@[0] != "channel"@[0]);
            reveal_strlit("send");
            assert("dynamic"@.len() != "send"@.len());
            reveal_strlit("receive");
            assert("dynamic"@[0] != "receive"@[0]);
            reveal_strlit("parallel");
            assert("dynamic"@.len() != "parallel"@.len());
            reveal_strlit("Some");
            assert("dynamic"@.len() != "Some"@.len());
            reveal_strlit("None");
            assert("dynamic"@.len() != "None"@.len());
            reveal_strlit("Ok");
            assert("dynamic"@.len() != "Ok"@.len());
            reveal_strlit("Error");
            assert("dynamic"@.len() != "Error"@.len());
            reveal_strlit("break");
            assert("dynamic"@.len() != "break"@.len());
            reveal_strlit("continue");
            assert("dynamic"@.len() != "continue"@.len());
            reveal_strlit("match");
            assert("dynamic"@.len() != "match"@.len());
            reveal_strlit("import");
            assert("dynamic"@.len() != "import"@.len());
            reveal_strlit("try");
            assert("dynamic"@.len() != "try"@.len());
            reveal_strlit("catch");
            assert("dynamic"@.len() != "catch"@.len());
            reveal_strlit("finally");
            assert("dynamic"@[0] != "finally"@[0]);
            reveal_strlit("region");
            assert("dynamic"@.len() != "region"@.len());
            reveal_strlit("unsafe");
            assert("dynamic"@.len() != "unsafe"@.len());
            reveal_strlit("extern");
            assert("dynamic"@.len() != "extern"@.len());
            reveal_strlit("from");
            assert("dynamic"@.len() != "from"@.len());
            reveal_strlit("as");
            assert("dynamic"@.len() != "as"@.len());
            reveal_strlit("static");
            assert("dynamic"@.len() != "static"@.len());
        },
        Token::Where => {
            reveal_strlit("where");
            reveal_strlit("procedure");
            assert("where"@.len() != "procedure"@.len());
            reveal_strlit("function");
            assert("where"@.len() != "function"@.len());
            reveal_strlit("var");
            assert("where"@.len() != "var"@.len());
            reveal_strlit("val");
            assert("where"@.len() != "val"@.len());
            reveal_strlit("if");
            assert("where"@.len() != "if"@.len());
            reveal_strlit("else");
            assert("where"@.len() != "else"@.len());
            reveal_strlit("for");
            assert("where"@.len() != "for"@.len());
            reveal_strlit("while");
            assert("where"@[2] != "while"@[2]);
            reveal_strlit("in");
            assert("where"@.len() != "in"@.len());
            reveal_strlit("do");
            assert("where"@.len() != "do"@.len());
            reveal_strlit("true");
            assert("where"@.len() != "true"@.len());
            reveal_strlit("false");
            assert("where"@[0] != "false"@[0]);
            reveal_strlit("null");
            assert("where"@.len() != "null"@.len());
            reveal_strlit("and");
            assert("where"@.len() != "and"@.len());
            reveal_strlit("or");
            assert("where"@.len() != "or"@.len());
            reveal_strlit("not");
            assert("where"@.len() != "not"@.len());
            reveal_strlit("return");
            assert("where"@.len() != "return"@.len());
            reveal_strlit("spawn");
            assert("where"@[0] != "spawn"@[0]);
            reveal_strlit("channel");
            assert("where"@.len() != "channel"@.len());
            reveal_strlit("send");
            assert("where"@.len() != "send"@.len());
            reveal_strlit("receive");
            assert("where"@.len() != "receive"@.len());
            reveal_strlit("parallel");
            assert("where"@.len() != "parallel"@.len());
            reveal_strlit("Some");
            assert("where"@.len() != "Some"@.len());
            reveal_strlit("None");
            assert("where"@.len() != "None"@.len());
            reveal_strlit("Ok");
            assert("where"@.len() != "Ok"@.len());
            reveal_strlit("Error");
            assert("where"@[0] != "Error"@[0]);
            reveal_strlit("break");
            assert("where"@[0] != "break"@[0]);
            reveal_strlit("continue");
            assert("where"@.len() != "continue"@.len());
            reveal_strlit("match");
            assert("where"@[0] != "match"@[0]);
            reveal_strlit("import");
            assert("where"@.len() != "import"@.len());
            reveal_strlit("try");
            assert("where"@.len() != "try"@.len());
            reveal_strlit("catch");
            assert("where"@[0] != "catch"@[0]);
            reveal_strlit("finally");
            assert("where"@.len() != "finally"@.len());
            reveal_strlit("region");
            assert("where"@.len() != "region"@.len());
            reveal_strlit("unsafe");
            assert("where"@.len() != "unsafe"@.len());
            reveal_strlit("extern");
            assert("where"@.len() != "extern"@.len());
            reveal_strlit("from");
            assert("where"@.len() != "from"@.len());
            reveal_strlit("as");
            assert("where"@.len() != "as"@.len());
            reveal_strlit("static");
            assert("where"@.len() != "static"@.len());
            reveal_strlit("dynamic");
            assert("where"@.len() != "dynamic"@.len());
        },
        Token::End => {
            reveal_strlit("end");
            reveal_strlit("procedure");
            assert("end"@.len() != "procedure"@.len());
            reveal_strlit("function");
            assert("end"@.len() != "function"@.len());
            reveal_strlit("var");
            assert("end"@[0] != "var"@[0]);
            reveal_strlit("val");
            assert("end"@[0] != "val"@[0]);
            reveal_strlit("if");
            assert("end"@.len() != "if"@.len());
            reveal_strlit("else");
            assert("end"@.len() != "else"@.len());
            reveal_strlit("for");
            assert("end"@[0] != "for"@[0]);
            reveal_strlit("while");
            assert("end"@.len() != "while"@.len());
            reveal_strlit("in");
            assert("end"@.len() != "in"@.len());
            reveal_strlit("do");
            assert("end"@.len() != "do"@.len());
            reveal_strlit("true");
            assert("end"@.len() != "true"@.len());
            reveal_strlit("false");
            assert("end"@.len() != "false"@.len());
            reveal_strlit("null");
            assert("end"@.len() != "null"@.len());
            reveal_strlit("and");
            assert("end"@[0] != "and"@[0]);
            reveal_strlit("or");
            assert("end"@.len() != "or"@.len());
            reveal_strlit("not");
            assert("end"@[0] != "not"@[0]);
            reveal_strlit("return");
            assert("end"@.len() != "return"@.len());
            reveal_strlit("spawn");
            assert("end"@.len() != "spawn"@.len());
            reveal_strlit("channel");
            assert("end"@.len() != "channel"@.len());
            reveal_strlit("send");
            assert("end"@.len() != "send"@.len());
            reveal_strlit("receive");
            assert("end"@.len() != "receive"@.len());
            reveal_strlit("parallel");
            assert("end"@.len() != "parallel"@.len());
            reveal_strlit("Some");
            assert("end"@.len() != "Some"@.len());
            reveal_strlit("None");
            assert("end"@.len() != "None"@.len());
            reveal_strlit("Ok");
            assert("end"@.len() != "Ok"@.len());
            reveal_strlit("Error");
            assert("end"@.len() != "Error"@.len());
            reveal_strlit("break");
            assert("end"@.len() != "break"@.len());
            reveal_strlit("continue");
            assert("end"@.len() != "continue"@.len());
            reveal_strlit("match");
            assert("end"@.len() != "match"@.len());
            reveal_strlit("import");
            assert("end"@.len() != "import"@.len());
            reveal_strlit("try");
            assert("end"@[0] != "try"@[0]);
            reveal_strlit("catch");
            assert("end"@.len() != "catch"@.len());
            reveal_strlit("finally");
            assert("end"@.len() != "finally"@.len());
            reveal_strlit("region");
            assert("end"@.len() != "region"@.len());
            reveal_strlit("unsafe");
            assert("end"@.len() != "unsafe"@.len());
            reveal_strlit("extern");
            assert("end"@.len() != "extern"@.len());
            reveal_strlit("from");
            assert("end"@.len() != "from"@.len());
            reveal_strlit("as");
            assert("end"@.len() != "as"@.len());
            reveal_strlit("static");
            assert("end"@.len() != "static"@.len());
            reveal_strlit("dynamic");
            assert("end"@.len() != "dynamic"@.len());
            reveal_strlit("where");
            assert("end"@.len() != "where"@.len());
        },
        Token::Trait => {
            reveal_strlit("trait");
            reveal_strlit("procedure");
            assert("trait"@.len() != "procedure"@.len());
            reveal_strlit("function");
            assert("trait"@.len() != "function"@.len());
            reveal_strlit("var");
            assert("trait"@.len() != "var"@.len());
            reveal_strlit("val");
            assert("trait"@.len() != "val"@.len());
            reveal_strlit("if");
            assert("trait"@.len() != "if"@.len());
            reveal_strlit("else");
            assert("trait"@.len() != "else"@.len());
            reveal_strlit("for");
            assert("trait"@.len() != "for"@.len());
            reveal_strlit("while");
            assert("trait"@[0] != "while"@[0]);
            reveal_strlit("in");
            assert("trait"@.len() != "in"@.len());
            reveal_strlit("do");
            assert("trait"@.len() != "do"@.len());
            reveal_strlit("true");
            assert("trait"@.len() != "true"@.len());
            reveal_strlit("false");
            assert("trait"@[0] != "false"@[0]);
            reveal_strlit("null");
            assert("trait"@.len() != "null"@.len());
            reveal_strlit("and");
            assert("trait"@.len() != "and"@.len());
            reveal_strlit("or");
            assert("trait"@.len() != "or"@.len());
            reveal_strlit("not");
            assert("trait"@.len() != "not"@.len());
            reveal_strlit("return");
            assert("trait"@.len() != "return"@.len());
            reveal_strlit("spawn");
            assert("trait"@[0] != "spawn"@[0]);
            reveal_strlit("channel");
            assert("trait"@.len() != "channel"@.len());
            reveal_strlit("send");
            assert("trait"@.len() != "send"@.len());
            reveal_strlit("receive");
            assert("trait"@.len() != "receive"@.len());
            reveal_strlit("parallel");
            assert("trait"@.len() != "parallel"@.len());
            reveal_strlit("Some");
            assert("trait"@.len() != "Some"@.len());
            reveal_strlit("None");
            assert("trait"@.len() != "None"@.len());
            reveal_strlit("Ok");
            assert("trait"@.len() != "Ok"@.len());
            reveal_strlit("Error");
            assert("trait"@[0] != "Error"@[0]);
            reveal_strlit("break");
            assert("trait"@[0] != "break"@[0]);
            reveal_strlit("continue");
            assert("trait"@.len() != "continue"@.len());
            reveal_strlit("match");
            assert("trait"@[0] != "match"@[0]);
            reveal_strlit("import");
            assert("trait"@.len() != "import"@.len());
            reveal_strlit("try");
            assert("trait"@.len() != "try"@.len());
            reveal_strlit("catch");
            assert("trait"@[0] != "catch"@[0]);
            reveal_strlit("finally");
            assert("trait"@.len() != "finally"@.len());
            reveal_strlit("region");
            assert("trait"@.len() != "region"@.len());
            reveal_strlit("unsafe");
            assert("trait"@.len() != "unsafe"@.len());
            reveal_strlit("extern");
            assert("trait"@.len() != "extern"@.len());
            reveal_strlit("from");
            assert("trait"@.len() != "from"@.len());
            reveal_strlit("as");
            assert("trait"@.len() != "as"@.len());
            reveal_strlit("static");
            assert("trait"@.len() != "static"@.len());
            reveal_strlit("dynamic");
            assert("trait"@.len() != "dynamic"@.len());
            reveal_strlit("where");
            assert("trait"@[0] != "where"@[0]);
            reveal_strlit("end");
            assert("trait"@.len() != "end"@.len());
        },
        Token::Impl => {
            reveal_strlit("impl");
            reveal_strlit("procedure");
            assert("impl"@.len() != "procedure"@.len());
            reveal_strlit("function");
            assert("impl"@.len() != "function"@.len());
            reveal_strlit("var");
            assert("impl"@.len() != "var"@.len());
            reveal_strlit("val");
            assert("impl"@.len() != "val"@.len());
            reveal_strlit("if");
            assert("impl"@.len() != "if"@.len());
            reveal_strlit("else");
            assert("impl"@[0] != "else"@[0]);
            reveal_strlit("for");
            assert("impl"@.len() != "for"@.len());
            reveal_strlit("while");
            assert("impl"@.len() != "while"@.len());
            reveal_strlit("in");
            assert("impl"@.len() != "in"@.len());
            reveal_strlit("do");
            assert("impl"@.len() != "do"@.len());
            reveal_strlit("true");
            assert("impl"@[0] != "true"@[0]);
            reveal_strlit("false");
            assert("impl"@.len() != "false"@.len());
            reveal_strlit("null");
            assert("impl"@[0] != "null"@[0]);
            reveal_strlit("and");
            assert("impl"@.len() != "and"@.len());
            reveal_strlit("or");
            assert("impl"@.len() != "or"@.len());
            reveal_strlit("not");
            assert("impl"@.len() != "not"@.len());
            reveal_strlit("return");
            assert("impl"@.len() != "return"@.len());
            reveal_strlit("spawn");
            assert("impl"@.len() != "spawn"@.len());
            reveal_strlit("channel");
            assert("impl"@.len() != "channel"@.len());
            reveal_strlit("send");
            assert("impl"@[0] != "send"@[0]);
            reveal_strlit("receive");
            assert("impl"@.len() != "receive"@.len());
            reveal_strlit("parallel");
            assert("impl"@.len() != "parallel"@.len());
            reveal_strlit("Some");
            assert("impl"@[0] != "Some"@[0]);
            reveal_strlit("None");
            assert("impl"@[0] != "None"@[0]);
            reveal_strlit("Ok");
            assert("impl"@.len() != "Ok"@.len());
            reveal_strlit("Error");
            assert("impl"@.len() != "Error"@.len());
            reveal_strlit("break");
            assert("impl"@.len() != "break"@.len());
            reveal_strlit("continue");
            assert("impl"@.len() != "continue"@.len());
            reveal_strlit("match");
            assert("impl"@.len() != "match"@.len());
            reveal_strlit("import");
            assert("impl"@.len() != "import"@.len());
            reveal_strlit("try");
            assert("impl"@.len() != "try"@.len());
            reveal_strlit("catch");
            assert("impl"@.len() != "catch"@.len());
            reveal_strlit("finally");
            assert("impl"@.len() != "finally"@.len());
            reveal_strlit("region");
            assert("impl"@.len() != "region"@.len());
            reveal_strlit("unsafe");
            assert("impl"@.len() != "unsafe"@.len());
            reveal_strlit("extern");
            assert("impl"@.len() != "extern"@.len());
            reveal_strlit("from");
            assert("impl"@[0] != "from"@[0]);
            reveal_strlit("as");
            assert("impl"@.len() != "as"@.len());
            reveal_strlit("static");
            assert("impl"@.len() != "static"@.len());
            reveal_strlit("dynamic");
            assert("impl"@.len() != "dynamic"@.len());
            reveal_strlit("where");
            assert("impl"@.len() != "where"@.len());
            reveal_strlit("end");
            assert("impl"@.len() != "end"@.len());
            reveal_strlit("trait");
            assert("impl"@.len() != "trait"@.len());
        },
        Token::SelfType => {
            reveal_strlit("Self");
            reveal_strlit("procedure");
            assert("Self"@.len() != "procedure"@.len());
            reveal_strlit("function");
            assert("Self"@.len() != "function"@.len());
            reveal_strlit("var");
            assert("Self"@.len() != "var"@.len());
            reveal_strlit("val");
            assert("Self"@.len() != "val"@.len());
            reveal_strlit("if");
            assert("Self"@.len() != "if"@.len());
            reveal_strlit("else");
            assert("Self"@[0] != "else"@[0]);
            reveal_strlit("for");
            assert("Self"@.len() != "for"@.len());
            reveal_strlit("while");
            assert("Self"@.len() != "while"@.len());
            reveal_strlit("in");
            assert("Self"@.len() != "in"@.len());
            reveal_strlit("do");
            assert("Self"@.len() != "do"@.len());
            reveal_strlit("true");
            assert("Self"@[0] != "true"@[0]);
            reveal_strlit("false");
            assert("Self"@.len() != "false"@.len());
            reveal_strlit("null");
            assert("Self"@[0] != "null"@[0]);
            reveal_strlit("and");
            assert("Self"@.len() != "and"@.len());
            reveal_strlit("or");
            assert("Self"@.len() != "or"@.len());
            reveal_strlit("not");
            assert("Self"@.len() != "not"@.len());
            reveal_strlit("return");
            assert("Self"@.len() != "return"@.len());
            reveal_strlit("spawn");
            assert("Self"@.len() != "spawn"@.len());
            reveal_strlit("channel");
            assert("Self"@.len() != "channel"@.len());
            reveal_strlit("send");
            assert("Self"@[0] != "send"@[0]);
            reveal_strlit("receive");
            assert("Self"@.len() != "receive"@.len());
            reveal_strlit("parallel");
            assert("Self"@.len() != "parallel"@.len());
            reveal_strlit("Some");
            assert("Self"@[1] != "Some"@[1]);
            reveal_strlit("None");
            assert("Self"@[0] != "None"@[0]);
            reveal_strlit("Ok");
            assert("Self"@.len() != "Ok"@.len());
            reveal_strlit("Error");
            assert("Self"@.len() != "Error"@.len());
            reveal_strlit("break");
            assert("Self"@.len() != "break"@.len());
            reveal_strlit("continue");
            assert("Self"@.len() != "continue"@.len());
            reveal_strlit("match");
            assert("Self"@.len() != "match"@.len());
            reveal_strlit("import");
            assert("Self"@.len() != "import"@.len());
            reveal_strlit("try");
            assert("Self"@.len() != "try"@.len());
            reveal_strlit("catch");
            assert("Self"@.len() != "catch"@.len());
            reveal_strlit("finally");
            assert("Self"@.len() != "finally"@.len());
            reveal_strlit("region");
            assert("Self"@.len() != "region"@.len());
            reveal_strlit("unsafe");
            assert("Self"@.len() != "unsafe"@.len());
            reveal_strlit("extern");
            assert("Self"@.len() != "extern"@.len());
            reveal_strlit("from");
            assert("Self"@[0] != "from"@[0]);
            reveal_strlit("as");
            assert("Self"@.len() != "as"@.len());
            reveal_strlit("static");
            assert("Self"@.len() != "static"@.len());
            reveal_strlit("dynamic");
            assert("Self"@.len() != "dynamic"@.len());
            reveal_strlit("where");
            assert("Self"@.len() != "where"@.len());
            reveal_strlit("end");
            assert("Self"@.len() != "end"@.len());
            reveal_strlit("trait");
            assert("Self"@.len() != "trait"@.len());
            reveal_strlit("impl");
            assert("Self"@[0] != "impl"@[0]);
        },
        Token::Case => {
            reveal_strlit("case");
            reveal_strlit("procedure");
            assert("case"@.len() != "procedure"@.len());
            reveal_strlit("function");
            assert("case"@.len() != "function"@.len());
            reveal_strlit("var");
            assert("case"@.len() != "var"@.len());
            reveal_strlit("val");
            assert("case"@.len() != "val"@.len());
            reveal_strlit("if");
            assert("case"@.len() != "if"@.len());
            reveal_strlit("else");
            assert("case"@[0] != "else"@[0]);
            reveal_strlit("for");
            assert("case"@.len() != "for"@.len());
            reveal_strlit("while");
            assert("case"@.len() != "while"@.len());
            reveal_strlit("in");
            assert("case"@.len() != "in"@.len());
            reveal_strlit("do");
            assert("case"@.len() != "do"@.len());
            reveal_strlit("true");
            assert("case"@[0] != "true"@[0]);
            reveal_strlit("false");
            assert("case"@.len() != "false"@.len());
            reveal_strlit("null");
            assert("case"@[0] != "null"@[0]);
            reveal_strlit("and");
            assert("case"@.len() != "and"@.len());
            reveal_strlit("or");
            assert("case"@.len() != "or"@.len());
            reveal_strlit("not");
            assert("case"@.len() != "not"@.len());
            reveal_strlit("return");
            assert("case"@.len() != "return"@.len());
            reveal_strlit("spawn");
            assert("case"@.len() != "spawn"@.len());
            reveal_strlit("channel");
            assert("case"@.len() != "channel"@.len());
            reveal_strlit("send");
            assert("case"@[0] != "send"@[0]);
            reveal_strlit("receive");
            assert("case"@.len() != "receive"@.len());
            reveal_strlit("parallel");
            assert("case"@.len() != "parallel"@.len());
            reveal_strlit("Some");
            assert("case"@[0] != "Some"@[0]);
            reveal_strlit("None");
            assert("case"@[0] != "None"@[0]);
            reveal_strlit("Ok");
            assert("case"@.len() != "Ok"@.len());
            reveal_strlit("Error");
            assert("case"@.len() != "Error"@.len());
            reveal_strlit("break");
            assert("case"@.len() != "break"@.len());
            reveal_strlit("continue");
            assert("case"@.len() != "continue"@.len());
            reveal_strlit("match");
            assert("case"@.len() != "match"@.len());
            reveal_strlit("import");
            assert("case"@.len() != "import"@.len());
            reveal_strlit("try");
            assert("case"@.len() != "try"@.len());
            reveal_strlit("catch");
            assert("case"@.len() != "catch"@.len());
            reveal_strlit("finally");
            assert("case"@.len() != "finally"@.len());
            reveal_strlit("region");
            assert("case"@.len() != "region"@.len());
            reveal_strlit("unsafe");
            assert("case"@.len() != "unsafe"@.len());
            reveal_strlit("extern");
            assert("case"@.len() != "extern"@.len());
            reveal_strlit("from");
            assert("case"@[0] != "from"@[0]);
            reveal_strlit("as");
            assert("case"@.len() != "as"@.len());
            reveal_strlit("static");
            assert("case"@.len() != "static"@.len());
            reveal_strlit("dynamic");
            assert("case"@.len() != "dynamic"@.len());
            reveal_strlit("where");
            assert("case"@.len() != "where"@.len());
            reveal_strlit("end");
            assert("case"@.len() != "end"@.len());
            reveal_strlit("trait");
            assert("case"@.len() != "trait"@.len());
            reveal_strlit("impl");
            assert("case"@[0] != "impl"@[0]);
            reveal_strlit("Self");
            assert("case"@[0] != "Self"@[0]);
        },
        Token::Mut => {
            reveal_strlit("mut");
            reveal_strlit("procedure");
            assert("mut"@.len() != "procedure"@.len());
            reveal_strlit("function");
            assert("mut"@.len() != "function"@.len());
            reveal_strlit("var");
            assert("mut"@[0] != "var"@[0]);
            reveal_strlit("val");
            assert("mut"@[0] != "val"@[0]);
            reveal_strlit("if");
            assert("mut"@.len() != "if"@.len());
            reveal_strlit("else");
            assert("mut"@.len() != "else"@.len());
            reveal_strlit("for");
            assert("mut"@[0] != "for"@[0]);
            reveal_strlit("while");
            assert("mut"@.len() != "while"@.len());
            reveal_strlit("in");
            assert("mut"@.len() != "in"@.len());
            reveal_strlit("do");
            assert("mut"@.len() != "do"@.len());
            reveal_strlit("true");
            assert("mut"@.len() != "true"@.len());
            reveal_strlit("false");
            assert("mut"@.len() != "false"@.len());
            reveal_strlit("null");
            assert("mut"@.len() != "null"@.len());
            reveal_strlit("and");
            assert("mut"@[0] != "and"@[0]);
            reveal_strlit("or");
            assert("mut"@.len() != "or"@.len());
            reveal_strlit("not");
            assert("mut"@[0] != "not"@[0]);
            reveal_strlit("return");
            assert("mut"@.len() != "return"@.len());
            reveal_strlit("spawn");
            assert("mut"@.len() != "spawn"@.len());
            reveal_strlit("channel");
            assert("mut"@.len() != "channel"@.len());
            reveal_strlit("send");
            assert("mut"@.len() != "send"@.len());
            reveal_strlit("receive");
            assert("mut"@.len() != "receive"@.len());
            reveal_strlit("parallel");
            assert("mut"@.len() != "parallel"@.len());
            reveal_strlit("Some");
            assert("mut"@.len() != "Some"@.len());
            reveal_strlit("None");
            assert("mut"@.len() != "None"@.len());
            reveal_strlit("Ok");
            assert("mut"@.len() != "Ok"@.len());
            reveal_strlit("Error");
            assert("mut"@.len() != "Error"@.len());
            reveal_strlit("break");
            assert("mut"@.len() != "break"@.len());
            reveal_strlit("continue");
            assert("mut"@.len() != "continue"@.len());
            reveal_strlit("match");
            assert("mut"@.len() != "match"@.len());
            reveal_strlit("import");
            assert("mut"@.len() != "import"@.len());
            reveal_strlit("try");
            assert("mut"@[0] != "try"@[0]);
            reveal_strlit("catch");
            assert("mut"@.len() != "catch"@.len());
            reveal_strlit("finally");
            assert("mut"@.len() != "finally"@.len());
            reveal_strlit("region");
            assert("mut"@.len() != "region"@.len());
            reveal_strlit("unsafe");
            assert("mut"@.len() != "unsafe"@.len());
            reveal_strlit("extern");
            assert("mut"@.len() != "extern"@.len());
            reveal_strlit("from");
            assert("mut"@.len() != "from"@.len());
            reveal_strlit("as");
            assert("mut"@.len() != "as"@.len());
            reveal_strlit("static");
            assert("mut"@.len() != "static"@.len());
            reveal_strlit("dynamic");
            assert("mut"@.len() != "dynamic"@.len());
            reveal_strlit("where");
            assert("mut"@.len() != "where"@.len());
            reveal_strlit("end");
            assert("mut"@[0] != "end"@[0]);
            reveal_strlit("trait");
            assert("mut"@.len() != "trait"@.len());
            reveal_strlit("impl");
            assert("mut"@.len() != "impl"@.len());
            reveal_strlit("Self");
            assert("mut"@.len() != "Self"@.len());
            reveal_strlit("case");
            assert("mut"@.len() != "case"@.len());
        },
        _ => {},
    }
}

/// A word that is no token's spelling and none of the statement words
/// `print`, `defer`, `alloc`, `free` reads as an identifier of itself.
pub proof fn lemma_other_words_are_identifiers(w: Seq<char>)
    requires
        forall|t: Token| #[trigger] spelling(t) != Some(w),
        w != "print"@ && w != "defer"@ && w != "alloc"@ && w != "free"@,
    ensures
        word_lexeme(w) == Lexeme::Ident(w),
{
    if keyword(w) is Some {
        lemma_keyword_spelled(w, keyword(w)->Some_0);
        assert(spelling(keyword(w)->Some_0) == Some(w));
    }
}

} // verus!
