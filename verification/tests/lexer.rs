use lib::frontend::lexer::{LexError, LexErrorKind, Lexer, Token};

fn token_kinds(lexer: &Lexer) -> Vec<Token> {
    lexer.tokens.iter().map(|st| st.token.clone()).collect()
}

fn has_token(lexer: &Lexer, t: &Token) -> bool {
    lexer.tokens.iter().any(|st| &st.token == t)
}

fn count(lexer: &Lexer, t: &Token) -> usize {
    lexer.tokens.iter().filter(|st| &st.token == t).count()
}

fn has_float(lexer: &Lexer, value: f64) -> bool {
    lexer.tokens.iter().any(|st| match &st.token {
        Token::FloatLit(text) => text.parse::<f64>().map(|v| v == value).unwrap_or(false),
        _ => false,
    })
}

fn ident(s: &str) -> Token {
    Token::Identifier(s.to_string())
}

fn lex(source: &str) -> Lexer {
    Lexer::new(source.to_string()).expect("lexes")
}

fn lex_err(source: &str) -> LexError {
    match Lexer::new(source.to_string()) {
        Ok(_) => panic!("expected a lexer error"),
        Err(e) => e,
    }
}

// ─── From the lexer's own tests ─────────────────────────────────────

#[test]
fn tests_test_simple_tokens() {
    let lexer = lex("var x := 5");
    assert_eq!(
        token_kinds(&lexer),
        vec![Token::Var, ident("x"), Token::Assign, Token::IntLit(5), Token::Eof]
    );
}

#[test]
fn tests_test_indentation() {
    let lexer = lex("procedure main\n    var x := 5\n    if x > 3\n        print x");
    assert!(has_token(&lexer, &Token::Indent));
    assert!(has_token(&lexer, &Token::Dedent));
}

#[test]
fn tests_test_comments_in_strings() {
    let lexer = lex("var s := \"hello // world\"");
    assert!(has_token(&lexer, &Token::StringLit("hello // world".to_string())));
}

#[test]
fn tests_test_string_escapes() {
    let lexer = lex("var s := \"hello\\nworld\"");
    assert!(has_token(&lexer, &Token::StringLit("hello\nworld".to_string())));
}

#[test]
fn tests_test_number_literals() {
    let lexer = lex("var a := 123\nvar b := 45.67\nvar c := 1e10\nvar d := 1_000_000");
    assert!(has_token(&lexer, &Token::IntLit(123)));
    assert!(has_float(&lexer, 45.67));
    assert!(has_float(&lexer, 1e10));
    assert!(has_token(&lexer, &Token::IntLit(1000000)));
}

#[test]
fn tests_test_dotted_identifiers() {
    let lexer = lex("var x := Math.sqrt(16)");
    assert!(has_token(&lexer, &ident("Math")));
    assert!(has_token(&lexer, &Token::Dot));
    assert!(has_token(&lexer, &ident("sqrt")));
}

#[test]
fn test_method_call_tokens() {
    let lexer = lex("list.append(3)");
    assert!(has_token(&lexer, &ident("list")));
    assert!(has_token(&lexer, &Token::Dot));
    assert!(has_token(&lexer, &ident("append")));
}

#[test]
fn test_range_tokens() {
    let lexer = lex("1..5");
    assert!(has_token(&lexer, &Token::IntLit(1)));
    assert!(has_token(&lexer, &Token::DotDot));
    assert!(has_token(&lexer, &Token::IntLit(5)));
}

#[test]
fn test_case_keyword() {
    let lexer = lex("match x\n    case 1\n        print 1");
    assert!(has_token(&lexer, &Token::Case));
}

#[test]
fn test_escaped_quote_does_not_break_comment_stripping() {
    let lexer = lex("var s := \"a\\\"b\" // comment");
    assert!(has_token(&lexer, &Token::StringLit("a\"b".to_string())));
    assert!(!has_token(&lexer, &ident("comment")));
}

#[test]
fn test_escaped_backslash_before_quote() {
    let lexer = lex("var s := \"\\\\\" // done");
    assert!(has_token(&lexer, &Token::StringLit("\\".to_string())));
    assert!(!has_token(&lexer, &ident("done")));
}

// ─── From the tests of the earlier single-file lexer ─────────────────

#[test]
fn lexer_test_simple_tokens() {
    let lexer = lex("var x := 5");
    assert_eq!(
        token_kinds(&lexer),
        vec![Token::Var, ident("x"), Token::Assign, Token::IntLit(5), Token::Eof]
    );
}

#[test]
fn lexer_test_indentation() {
    let lexer = lex("procedure main\n    var x := 5\n    if x > 3\n        print x");
    assert!(has_token(&lexer, &Token::Indent));
    assert!(has_token(&lexer, &Token::Dedent));
    assert_eq!(count(&lexer, &Token::Indent), count(&lexer, &Token::Dedent));
}

#[test]
fn lexer_test_comments_in_strings() {
    let lexer = lex("var s := \"hello // world\"");
    assert!(has_token(&lexer, &Token::StringLit("hello // world".to_string())));
}

#[test]
fn lexer_test_string_escapes() {
    let lexer = lex("var s := \"hello\\nworld\"");
    assert!(has_token(&lexer, &Token::StringLit("hello\nworld".to_string())));
}

#[test]
fn lexer_test_number_literals() {
    let lexer = lex("var a := 123\nvar b := 45.67\nvar c := 1e10\nvar d := 1_000_000");
    assert!(has_token(&lexer, &Token::IntLit(123)));
    assert!(has_float(&lexer, 45.67));
    assert!(has_float(&lexer, 1e10));
    assert!(has_token(&lexer, &Token::IntLit(1000000)));
}

#[test]
fn test_function_declaration() {
    let lexer = lex("function add(a: Float, b: Float) -> Float\n    return a + b");
    assert!(has_token(&lexer, &Token::Function));
    assert!(has_token(&lexer, &ident("add")));
    assert!(has_token(&lexer, &Token::LParen));
    assert!(has_token(&lexer, &ident("a")));
    assert!(has_token(&lexer, &Token::Colon));
    assert!(has_token(&lexer, &ident("Float")));
    assert!(has_token(&lexer, &Token::Comma));
    assert!(has_token(&lexer, &ident("b")));
    assert!(has_token(&lexer, &Token::RParen));
    assert!(has_token(&lexer, &Token::Colon));
    assert!(has_token(&lexer, &ident("Float")));
    assert!(has_token(&lexer, &Token::Return));
}

#[test]
fn test_inconsistent_indentation() {
    let err = lex_err("procedure main\n    var x := 5\n  var y = 10");
    assert!(matches!(err.kind, LexErrorKind::InconsistentIndentation { .. }));
}

#[test]
fn test_multiline_dedent() {
    let lexer = lex("procedure main\n    if true\n        var x := 1\n        var y := 2\nvar z := 3");
    assert_eq!(count(&lexer, &Token::Indent), count(&lexer, &Token::Dedent));
}

#[test]
fn test_operators() {
    let lexer = lex("if x >= 5 and y <= 10 or z != 3");
    assert!(has_token(&lexer, &Token::GreaterEqual));
    assert!(has_token(&lexer, &Token::LessEqual));
    assert!(has_token(&lexer, &Token::And));
    assert!(has_token(&lexer, &Token::Or));
    assert!(has_token(&lexer, &Token::NotEqual));
}

// ─── Positions, layout and errors ───────────────────────────────────

#[test]
fn tokens_carry_line_and_column() {
    let lexer = lex("var x := 5\n  \nif x\n    print x");
    let placed: Vec<(Token, usize, usize)> = lexer
        .tokens
        .iter()
        .map(|st| (st.token.clone(), st.span.start_line, st.span.start_column))
        .collect();
    assert_eq!(
        placed,
        vec![
            (Token::Var, 1, 1),
            (ident("x"), 1, 5),
            (Token::Assign, 1, 7),
            (Token::IntLit(5), 1, 10),
            (Token::If, 3, 1),
            (ident("x"), 3, 4),
            (Token::Indent, 4, 1),
            (Token::Print, 4, 5),
            (ident("x"), 4, 11),
            (Token::Dedent, 4, 1),
            (Token::Eof, 4, 0),
        ]
    );
    assert!(lexer
        .tokens
        .iter()
        .all(|st| st.span.start_line == st.span.end_line && st.span.start_column == st.span.end_column));
}

#[test]
fn empty_source_is_just_the_end() {
    let lexer = lex("");
    assert_eq!(token_kinds(&lexer), vec![Token::Eof]);
    assert_eq!((lexer.tokens[0].span.start_line, lexer.tokens[0].span.start_column), (1, 0));
}

#[test]
fn comment_lines_are_passed_over() {
    let lexer = lex("// a comment\n-- another\nvar x := 1 // trailing");
    assert_eq!(
        token_kinds(&lexer),
        vec![Token::Var, ident("x"), Token::Assign, Token::IntLit(1), Token::Eof]
    );
}

#[test]
fn dedenting_two_levels_closes_two_blocks() {
    let lexer = lex("a\n    b\n        c\nd");
    assert_eq!(
        token_kinds(&lexer),
        vec![
            ident("a"),
            Token::Indent,
            ident("b"),
            Token::Indent,
            ident("c"),
            Token::Dedent,
            Token::Dedent,
            ident("d"),
            Token::Eof,
        ]
    );
}

#[test]
fn lines_inside_brackets_open_no_block() {
    let lexer = lex("var xs := [1,\n        2]\nprint xs");
    assert_eq!(count(&lexer, &Token::Indent), 0);
    assert_eq!(count(&lexer, &Token::Dedent), 0);
}

#[test]
fn a_tab_counts_four_columns() {
    let lexer = lex("if x\n\tprint x");
    let print = lexer.tokens.iter().find(|st| st.token == Token::Print).unwrap();
    assert_eq!(print.span.start_column, 5);
}

#[test]
fn crlf_line_endings_are_read_as_lines() {
    let lexer = lex("var x := 1\r\nvar y := 2\r\n");
    assert_eq!(count(&lexer, &Token::Var), 2);
    assert_eq!(lexer.tokens.last().unwrap().span.start_line, 2);
}

#[test]
fn declarations_read_name_and_signature() {
    let lexer = lex("procedure swap<T>(a: &T, b: &T) where T");
    assert_eq!(
        token_kinds(&lexer),
        vec![
            Token::Procedure,
            ident("swap"),
            Token::Lt,
            ident("T"),
            Token::Gt,
            Token::LParen,
            ident("a"),
            Token::Colon,
            Token::Ampersand,
            ident("T"),
            Token::Comma,
            ident("b"),
            Token::Colon,
            Token::Ampersand,
            ident("T"),
            Token::RParen,
            Token::Where,
            ident("T"),
            Token::Eof,
        ]
    );
    let columns: Vec<usize> = lexer.tokens.iter().map(|st| st.span.start_column).collect();
    assert_eq!(&columns[..3], &[1, 11, 15]);
}

#[test]
fn proc_is_short_for_procedure() {
    let lexer = lex("proc main()");
    assert_eq!(
        token_kinds(&lexer),
        vec![Token::Procedure, ident("main"), Token::LParen, Token::RParen, Token::Eof]
    );
}

#[test]
fn statement_words_and_keywords() {
    let lexer = lex("defer alloc free Some None Ok Error Self null mut spawn");
    assert_eq!(
        token_kinds(&lexer),
        vec![
            Token::Defer,
            Token::Alloc,
            Token::Free,
            Token::SomeKw,
            Token::NoneKw,
            Token::OkKw,
            Token::Error,
            Token::SelfType,
            Token::NullPtr,
            Token::Mut,
            Token::Spawn,
            Token::Eof,
        ]
    );
}

#[test]
fn dots_read_as_ranges_and_ellipsis() {
    let lexer = lex("a ..= b ... c . d -> e");
    assert_eq!(
        token_kinds(&lexer),
        vec![
            ident("a"),
            Token::DotDotEqual,
            ident("b"),
            Token::Ellipsis,
            ident("c"),
            Token::Dot,
            ident("d"),
            Token::Arrow,
            ident("e"),
            Token::Eof,
        ]
    );
}

#[test]
fn a_number_before_a_range_stays_an_integer() {
    let lexer = lex("0..10");
    assert_eq!(
        token_kinds(&lexer),
        vec![Token::IntLit(0), Token::DotDot, Token::IntLit(10), Token::Eof]
    );
}

#[test]
fn float_text_drops_separators() {
    let lexer = lex("x := 1_000.5e-3");
    assert!(has_token(&lexer, &Token::FloatLit("1000.5e-3".to_string())));
    assert!(has_float(&lexer, 1000.5e-3));
}

#[test]
fn largest_integer_reads_and_one_more_does_not() {
    let lexer = lex("x := 9223372036854775807");
    assert!(has_token(&lexer, &Token::IntLit(i64::MAX)));
    let err = lex_err("x := 9223372036854775808");
    assert_eq!(err.kind, LexErrorKind::InvalidInteger("9223372036854775808".to_string()));
    assert_eq!((err.line, err.column, err.source_line.as_str()), (0, 0, ""));
    assert_eq!(err.message(), "Invalid integer literal: 9223372036854775808");
}

#[test]
fn an_exponent_needs_digits() {
    let err = lex_err("x := 3e");
    assert_eq!(err.kind, LexErrorKind::InvalidFloat("3e".to_string()));
    assert_eq!(err.message(), "Invalid float literal: 3e");
}

#[test]
fn mixed_tabs_and_spaces_are_refused() {
    let err = lex_err("if x\n \tprint x");
    assert_eq!(err.kind, LexErrorKind::MixedIndentation);
    assert_eq!((err.line, err.column), (2, 0));
    assert_eq!(
        err.message(),
        "TabError: Mixed tabs and spaces - use spaces only (4 spaces per indent)"
    );
}

#[test]
fn inconsistent_indentation_names_the_widths() {
    let err = lex_err("procedure main\n    var x := 5\n  var y = 10");
    assert_eq!(
        err.kind,
        LexErrorKind::InconsistentIndentation { expected: 4, previous: 0, found: 2 }
    );
    assert_eq!((err.line, err.column), (3, 2));
    assert_eq!(err.source_line, "  var y = 10");
    assert_eq!(err.message(), "Inconsistent indentation: expected 4 or 0 spaces, found 2");
}

#[test]
fn string_faults_are_placed() {
    let err = lex_err("s := \"abc");
    assert_eq!(err.kind, LexErrorKind::UnterminatedString);
    assert_eq!((err.line, err.column), (1, 9));
    let err = lex_err("s := \"a\\q\"");
    assert_eq!(err.kind, LexErrorKind::InvalidEscape('q'));
    assert_eq!(err.message(), "Invalid escape sequence: \\q");
    let err = lex_err("s := \"a\\");
    assert_eq!(err.kind, LexErrorKind::UnterminatedEscape);
    assert_eq!(err.message(), "Unterminated escape sequence");
}

#[test]
fn lone_equals_and_bang_are_refused() {
    let err = lex_err("x = 1");
    assert_eq!(err.kind, LexErrorKind::UnexpectedEquals);
    assert_eq!((err.line, err.column), (1, 3));
    let err = lex_err("!x");
    assert_eq!(err.kind, LexErrorKind::UnexpectedBang);
    assert_eq!(
        err.message(),
        "Unexpected '!'; use '!=' for not-equal or 'not' for logical negation"
    );
}

#[test]
fn an_unknown_character_is_refused() {
    let err = lex_err("x := 1 # 2");
    assert_eq!(err.kind, LexErrorKind::UnexpectedCharacter('#'));
    assert_eq!((err.line, err.column), (1, 8));
    assert_eq!(err.message(), "Unexpected character: '#'");
}

#[test]
fn every_successful_read_ends_with_eof_and_balances_blocks() {
    for source in [
        "a\n    b\n        c\n    d\ne",
        "if x\n    if y\n        print y",
        "",
        "var x := [1,\n   2]\n    print x",
    ] {
        let lexer = lex(source);
        assert_eq!(lexer.tokens.last().unwrap().token, Token::Eof);
        assert_eq!(count(&lexer, &Token::Eof), 1);
        assert_eq!(count(&lexer, &Token::Indent), count(&lexer, &Token::Dedent));
    }
}
