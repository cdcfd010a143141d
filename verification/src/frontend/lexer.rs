//! The lexer: source text to a stream of tokens with their positions,
//! with the block structure of the indentation made explicit as `Indent`
//! and `Dedent` tokens.

use vstd::prelude::*;
use crate::common::span::Span;
use crate::common::text::{dec, decimal};
use crate::common::chars::push_char;

pub mod ident;
pub mod operator;
pub mod literal;
pub mod decl;
pub mod expr;
pub mod layout;
pub mod laws;
pub mod keyword_laws;

verus! {

/// One token of the language.
#[derive(Clone, Debug, PartialEq, Eq)]
pub enum Token {
    // Keywords
    Procedure,
    Function,
    Return,
    Var,
    Val,
    If,
    Else,
    For,
    While,
    In,
    Do,
    Print,
    True,
    False,
    NullPtr,
    Mut,
    // Literals
    Identifier(String),
    /// A floating-point literal, as its text with the digit separators
    /// removed; the text is known to read as an `f64`.
    FloatLit(String),
    IntLit(i64),
    StringLit(String),
    // Operators
    Ampersand,
    Assign,
    Plus,
    Minus,
    Star,
    Slash,
    GreaterEqual,
    LessEqual,
    Equal,
    NotEqual,
    And,
    Or,
    Not,
    // Delimiters
    LBracket,
    RBracket,
    Comma,
    LParen,
    RParen,
    Colon,
    Arrow,
    Dot,
    DotDot,
    DotDotEqual,
    // Concurrency
    Spawn,
    Channel,
    Send,
    Receive,
    Parallel,
    // Option/Result
    SomeKw,
    NoneKw,
    OkKw,
    Error,
    Match,
    // Structure
    Indent,
    Dedent,
    Eof,
    Break,
    Continue,
    Defer,
    Alloc,
    Free,
    // Modules
    Import,
    // Error handling
    Try,
    Catch,
    Finally,
    // Memory
    Region,
    Unsafe,
    Extern,
    // Foreign functions
    From,
    As,
    Static,
    Dynamic,
    // C types
    CType(CTypeName),
    Ellipsis,
    Lt,
    Gt,
    DoubleColon,
    Where,
    End,
    Trait,
    Impl,
    SelfType,
    Case,
}

/// A C type named in an `extern` signature.
#[derive(Clone, Copy, Debug, PartialEq, Eq, Structural)]
pub enum CTypeName {
    Void,
    Bool,
    Char,
    UChar,
    Short,
    UShort,
    Int,
    UInt,
    Long,
    ULong,
    LongLong,
    ULongLong,
    Float,
    Double,
    CString,
    Pointer,
    ConstPointer,
    SizeT,
    SSizeT,
    IntPtrT,
    UIntPtrT,
}

/// A token as the contracts see it: the tokens that carry text carry it
/// as a sequence of characters; every other token stands for itself.
pub enum Lexeme {
    Plain(Token),
    Ident(Seq<char>),
    Float(Seq<char>),
    Str(Seq<char>),
}

impl View for Token {
    type V = Lexeme;

    open spec fn view(&self) -> Lexeme {
        match self {
            Token::Identifier(s) => Lexeme::Ident(s@),
            Token::FloatLit(s) => Lexeme::Float(s@),
            Token::StringLit(s) => Lexeme::Str(s@),
            _ => Lexeme::Plain(*self),
        }
    }
}

/// Tokens with offsets, as the contracts see them.
pub open spec fn lexemes(v: Seq<(Token, usize)>) -> Seq<(Lexeme, int)> {
    v.map_values(|p: (Token, usize)| (p.0@, p.1 as int))
}

/// A token with the position where it starts.
#[derive(Clone, Debug)]
pub struct SpannedToken {
    pub token: Token,
    pub span: Span,
}

impl SpannedToken {
    /// The token with the line and column of its position.
    pub open spec fn placed(self) -> (Lexeme, int, int) {
        (self.token@, self.span.start_line as int, self.span.start_column as int)
    }

    /// The span is the single position where the token starts.
    pub open spec fn is_point(self) -> bool {
        self.span.end_line == self.span.start_line && self.span.end_column == self.span.start_column
    }
}

/// The tokens of one source text.
pub struct Lexer {
    pub tokens: Vec<SpannedToken>,
}

/// What the lexer found wrong.
#[derive(Clone, Debug, PartialEq, Eq)]
pub enum LexErrorKind {
    /// The indentation of a line mixes tabs and spaces.
    MixedIndentation,
    /// A line returns to an indentation that no enclosing block has.
    InconsistentIndentation { expected: usize, previous: usize, found: usize },
    /// A backslash in a string literal is followed by a character that
    /// names no escape.
    InvalidEscape(char),
    /// A backslash ends the line inside a string literal.
    UnterminatedEscape,
    /// A string literal is not closed on its line.
    UnterminatedString,
    /// A number with a fraction or an exponent that does not read as a
    /// floating-point number (its text, without digit separators).
    InvalidFloat(String),
    /// A number that does not read as a 64-bit signed integer (its text,
    /// without digit separators).
    InvalidInteger(String),
    /// A single `=`.
    UnexpectedEquals,
    /// A single `!`.
    UnexpectedBang,
    /// A character that starts no token.
    UnexpectedCharacter(char),
}

/// An error of the lexer, with where it was found: the line number, the
/// column, and the text of the line. Errors in number literals carry no
/// position (line and column 0, empty text).
#[derive(Clone, Debug)]
pub struct LexError {
    pub kind: LexErrorKind,
    pub line: usize,
    pub column: usize,
    pub source_line: String,
}

/// `LexErrorKind` as the contracts see it.
pub enum LexFault {
    MixedIndentation,
    InconsistentIndentation { expected: int, previous: int, found: int },
    InvalidEscape(char),
    UnterminatedEscape,
    UnterminatedString,
    InvalidFloat(Seq<char>),
    InvalidInteger(Seq<char>),
    UnexpectedEquals,
    UnexpectedBang,
    UnexpectedCharacter(char),
}

impl View for LexErrorKind {
    type V = LexFault;

    open spec fn view(&self) -> LexFault {
        match self {
            LexErrorKind::MixedIndentation => LexFault::MixedIndentation,
            LexErrorKind::InconsistentIndentation { expected, previous, found } =>
                LexFault::InconsistentIndentation {
                    expected: *expected as int,
                    previous: *previous as int,
                    found: *found as int,
                },
            LexErrorKind::InvalidEscape(c) => LexFault::InvalidEscape(*c),
            LexErrorKind::UnterminatedEscape => LexFault::UnterminatedEscape,
            LexErrorKind::UnterminatedString => LexFault::UnterminatedString,
            LexErrorKind::InvalidFloat(s) => LexFault::InvalidFloat(s@),
            LexErrorKind::InvalidInteger(s) => LexFault::InvalidInteger(s@),
            LexErrorKind::UnexpectedEquals => LexFault::UnexpectedEquals,
            LexErrorKind::UnexpectedBang => LexFault::UnexpectedBang,
            LexErrorKind::UnexpectedCharacter(c) => LexFault::UnexpectedCharacter(*c),
        }
    }
}

/// A lexer error as the contracts see it.
pub struct LexErrorView {
    pub fault: LexFault,
    pub line: int,
    pub column: int,
    pub text: Seq<char>,
}

impl View for LexError {
    type V = LexErrorView;

    open spec fn view(&self) -> LexErrorView {
        LexErrorView {
            fault: self.kind@,
            line: self.line as int,
            column: self.column as int,
            text: self.source_line@,
        }
    }
}

/// The sentence that reports a fault of the lexer.
pub open spec fn lex_fault_text(f: LexFault) -> Seq<char> {
    match f {
        LexFault::MixedIndentation => "TabError: Mixed tabs and spaces - use spaces only (4 spaces per indent)"@,
        LexFault::InconsistentIndentation { expected, previous, found } =>
            "Inconsistent indentation: expected "@ + dec(expected as nat) + " or "@ + dec(previous as nat)
                + " spaces, found "@ + dec(found as nat),
        LexFault::InvalidEscape(c) => "Invalid escape sequence: \\"@.push(c),
        LexFault::UnterminatedEscape => "Unterminated escape sequence"@,
        LexFault::UnterminatedString => "Unterminated string literal"@,
        LexFault::InvalidFloat(text) => "Invalid float literal: "@ + text,
        LexFault::InvalidInteger(text) => "Invalid integer literal: "@ + text,
        LexFault::UnexpectedEquals => "Unexpected '='; use ':=' for assignment or '==' for equality"@,
        LexFault::UnexpectedBang => "Unexpected '!'; use '!=' for not-equal or 'not' for logical negation"@,
        LexFault::UnexpectedCharacter(c) => "Unexpected character: '"@.push(c) + "'"@,
    }
}

impl LexErrorKind {
    /// The fault as a sentence.
    pub fn message(&self) -> (r: String)
        ensures
            r@ == lex_fault_text(self@),
    {
        match self {
            LexErrorKind::MixedIndentation => "TabError: Mixed tabs and spaces - use spaces only (4 spaces per indent)".to_string(),
            LexErrorKind::InconsistentIndentation { expected, previous, found } => {
                let mut s = "Inconsistent indentation: expected ".to_string();
                let e = decimal(*expected);
                s.append(e.as_str());
                s.append(" or ");
                let p = decimal(*previous);
                s.append(p.as_str());
                s.append(" spaces, found ");
                let f = decimal(*found);
                s.append(f.as_str());
                s
            },
            LexErrorKind::InvalidEscape(c) => {
                let mut s = "Invalid escape sequence: \\".to_string();
                push_char(&mut s, *c);
                s
            },
            LexErrorKind::UnterminatedEscape => "Unterminated escape sequence".to_string(),
            LexErrorKind::UnterminatedString => "Unterminated string literal".to_string(),
            LexErrorKind::InvalidFloat(text) => {
                let mut s = "Invalid float literal: ".to_string();
                s.append(text.as_str());
                s
            },
            LexErrorKind::InvalidInteger(text) => {
                let mut s = "Invalid integer literal: ".to_string();
                s.append(text.as_str());
                s
            },
            LexErrorKind::UnexpectedEquals => "Unexpected '='; use ':=' for assignment or '==' for equality".to_string(),
            LexErrorKind::UnexpectedBang => "Unexpected '!'; use '!=' for not-equal or 'not' for logical negation".to_string(),
            LexErrorKind::UnexpectedCharacter(c) => {
                let mut s = "Unexpected character: '".to_string();
                push_char(&mut s, *c);
                s.append("'");
                s
            },
        }
    }
}

impl LexError {
    /// The error as a sentence.
    pub fn message(&self) -> (r: String)
        ensures
            r@ == lex_fault_text(self.kind@),
    {
        self.kind.message()
    }
}

} // verus!
