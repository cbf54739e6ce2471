use gneurshk::lexer::indent;
use gneurshk::lexer::{format_lexing_error, lex, scan_bytes};
use gneurshk::tokens::{Scanner, Token};

fn tokens_of(input: &str) -> Vec<Token> {
    lex(input).expect("Failed to lex").tokens()
}

fn word(name: &str) -> Token {
    Token::Word(name.to_string())
}

#[test]
#[should_panic]
fn lib_unknown_token() {
    let _ = lex("`").expect("Failed to lex");
}

#[test]
#[should_panic]
fn mod_unknown_token() {
    let _ = indent::lex("`").expect("Failed to lex");
}

#[test]
#[should_panic]
fn tokenize_unknown_token() {
    let _ = indent::lex("`").expect("Failed to lex");
}

#[test]
fn comments_are_ignored() {
    let tokens = lex(r#"# This is a comment
    var x = 5  # Inline comment
    # Another comment
    var y = 10"#)
    .expect("Failed to lex")
    .tokens();

    assert_eq!(
        tokens,
        [
            Token::NewLine,
            Token::Var,
            Token::Word("x".to_string()),
            Token::Equal,
            Token::Integer(5),
            Token::NewLine,
            Token::NewLine,
            Token::Var,
            Token::Word("y".to_string()),
            Token::Equal,
            Token::Integer(10),
        ]
    );
}

#[test]
fn indentation_no_gaps() {
    let tokens = indent::lex(r#"
if true:
    1
    2
    if true:
        3
    4
else:
    if true:
        5
"#)
    .expect("Failed to lex")
    .tokens();

    assert_eq!(
        tokens,
        [
            Token::NewLine,
            Token::If,
            Token::Boolean(true,),
            Token::Colon,
            Token::Indent,
            Token::Integer(1,),
            Token::NewLine,
            Token::Integer(2,),
            Token::NewLine,
            Token::If,
            Token::Boolean(true,),
            Token::Colon,
            Token::Indent,
            Token::Integer(3,),
            Token::Dedent,
            Token::Integer(4,),
            Token::Dedent,
            Token::Else,
            Token::Colon,
            Token::Indent,
            Token::If,
            Token::Boolean(true,),
            Token::Colon,
            Token::Indent,
            Token::Integer(5,),
            Token::Dedent,
            Token::Dedent,
        ]
    );
}

#[test]
fn indentation_single_gap() {
    let tokens = indent::lex(r#"
if true:
    1

    2
"#)
    .expect("Failed to lex")
    .tokens();

    assert_eq!(
        tokens,
        [
            Token::NewLine,
            Token::If,
            Token::Boolean(true,),
            Token::Colon,
            Token::Indent,
            Token::Integer(1,),
            Token::NewLine,
            Token::Integer(2,),
            Token::Dedent,
        ]
    );
}

#[test]
fn indentation_double_gap() {
    let tokens = indent::lex(r#"
if true:
    1


    2
"#)
    .expect("Failed to lex")
    .tokens();

    assert_eq!(
        tokens,
        [
            Token::NewLine,
            Token::If,
            Token::Boolean(true,),
            Token::Colon,
            Token::Indent,
            Token::Integer(1,),
            Token::NewLine,
            Token::Integer(2,),
            Token::Dedent,
        ]
    );
}

#[test]
fn indentation_single_starting_gap() {
    let tokens = indent::lex(r#"
if true:

    1
    2
"#)
    .expect("Failed to lex")
    .tokens();

    assert_eq!(
        tokens,
        [
            Token::NewLine,
            Token::If,
            Token::Boolean(true,),
            Token::Colon,
            Token::Indent,
            Token::Integer(1,),
            Token::NewLine,
            Token::Integer(2,),
            Token::Dedent,
        ]
    );
}

#[test]
fn indentation_double_starting_gap() {
    let tokens = indent::lex(r#"
if true:


    1
    2
"#)
    .expect("Failed to lex")
    .tokens();

    assert_eq!(
        tokens,
        [
            Token::NewLine,
            Token::If,
            Token::Boolean(true,),
            Token::Colon,
            Token::Indent,
            Token::Integer(1,),
            Token::NewLine,
            Token::Integer(2,),
            Token::Dedent,
        ]
    );
}

#[test]
fn indentation() {
    let tokens = indent::lex(r#"
if true:
    1
    2
    if true:
        3
    4
else:
    if true:
        5"#)
    .expect("Failed to lex")
    .tokens();

    assert_eq!(
        tokens,
        [
            Token::NewLine,
            Token::If,
            Token::Boolean(true,),
            Token::Colon,
            Token::Indent,
            Token::Integer(1,),
            Token::NewLine,
            Token::Integer(2,),
            Token::NewLine,
            Token::If,
            Token::Boolean(true,),
            Token::Colon,
            Token::Indent,
            Token::Integer(3,),
            Token::Dedent,
            Token::Integer(4,),
            Token::Dedent,
            Token::Else,
            Token::Colon,
            Token::Indent,
            Token::If,
            Token::Boolean(true,),
            Token::Colon,
            Token::Indent,
            Token::Integer(5,),
            Token::Dedent,
            Token::Dedent,
        ]
    );
}

#[test]
fn keywords_are_not_identifiers() {
    assert_eq!(
        tokens_of("var const if else func struct type import as from return"),
        [
            Token::Var,
            Token::Const,
            Token::If,
            Token::Else,
            Token::Func,
            Token::Struct,
            Token::Type,
            Token::Import,
            Token::As,
            Token::From,
            Token::Return,
        ]
    );
    assert_eq!(
        tokens_of("variable iffy returned _x x1"),
        [word("variable"), word("iffy"), word("returned"), word("_x"), word("x1")]
    );
}

#[test]
fn longest_operator_wins() {
    assert_eq!(
        tokens_of(">= > == = -> - :: : <= < << >> != !"),
        [
            Token::GreaterThanEqual,
            Token::GreaterThan,
            Token::EqualEqual,
            Token::Equal,
            Token::Arrow,
            Token::Minus,
            Token::DoubleColon,
            Token::Colon,
            Token::LessThanEqual,
            Token::LessThan,
            Token::LeftShift,
            Token::RightShift,
            Token::NotEqual,
            Token::Not,
        ]
    );
    assert_eq!(
        tokens_of("+ * / % | & ^ ~ , ( ) [ ] { } @"),
        [
            Token::Plus,
            Token::Multiply,
            Token::Divide,
            Token::Modulus,
            Token::BitwiseOr,
            Token::BitwiseAnd,
            Token::BitwiseXor,
            Token::BitwiseNot,
            Token::Comma,
            Token::OpenParen,
            Token::CloseParen,
            Token::OpenBracket,
            Token::CloseBracket,
            Token::OpenBrace,
            Token::CloseBrace,
            Token::At,
        ]
    );
}

#[test]
fn logical_operators_have_two_spellings() {
    assert_eq!(
        tokens_of("and && or || not !"),
        [Token::And, Token::And, Token::Or, Token::Or, Token::Not, Token::Not]
    );
}

#[test]
fn literals() {
    assert_eq!(
        tokens_of("12 3.25 true false \"a\\n\\\"b\\\"\" @test"),
        [
            Token::Integer(12),
            Token::Float("3.25".to_string()),
            Token::Boolean(true),
            Token::Boolean(false),
            Token::String("a\n\"b\"".to_string()),
            Token::Annotation("test".to_string()),
        ]
    );
    assert_eq!("3.25".parse::<f64>().unwrap(), 3.25);
}

#[test]
fn string_literals_keep_their_text() {
    assert_eq!(
        tokens_of("\"Hello, World!\" \"h\u{e9}llo # no comment\""),
        [
            Token::String("Hello, World!".to_string()),
            Token::String("h\u{e9}llo # no comment".to_string()),
        ]
    );
}

#[test]
fn integer_limits() {
    assert_eq!(tokens_of("9223372036854775807"), [Token::Integer(i64::MAX)]);
    assert!(lex("9223372036854775808").is_err());
    assert_eq!(tokens_of("007"), [Token::Integer(7)]);
}

#[test]
fn a_dot_needs_digits_on_both_sides() {
    assert!(lex("1.").is_err());
    assert!(lex(".5").is_err());
}

#[test]
fn unterminated_string_is_an_error() {
    assert!(lex("\"abc").is_err());
    assert!(lex("\"abc\\").is_err());
}

#[test]
fn statement_ends_collapse() {
    assert_eq!(tokens_of("1\n\n;\r\n;2"), [Token::Integer(1), Token::NewLine, Token::Integer(2)]);
    assert_eq!(tokens_of("1;2"), [Token::Integer(1), Token::NewLine, Token::Integer(2)]);
    assert_eq!(tokens_of("1 \r 2"), [Token::Integer(1), Token::Integer(2)]);
}

#[test]
fn empty_and_blank_sources_have_no_tokens() {
    assert_eq!(tokens_of(""), []);
    assert_eq!(tokens_of("  \t # nothing here"), []);
    assert_eq!(indent::lex("").expect("Failed to lex").tokens(), []);
}

#[test]
fn spans_are_byte_ranges() {
    let mut scanner = lex("var x = 10 # c\n  y").expect("Failed to lex");
    let mut spans = Vec::new();
    while let Some((token, span)) = scanner.next() {
        spans.push((token, span));
    }
    assert_eq!(
        spans,
        vec![
            (Token::Var, 0..3),
            (word("x"), 4..5),
            (Token::Equal, 6..7),
            (Token::Integer(10), 8..10),
            (Token::NewLine, 14..15),
            (word("y"), 17..18),
        ]
    );
}

#[test]
fn spans_are_monotone_and_cover_everything_but_trivia() {
    let source = "func f(a: Int32) -> Int32 { return a } # done\nf(1, 2)";
    let found = scan_bytes(source.as_bytes()).expect("Failed to lex");
    let mut covered = vec![false; source.len()];
    let mut last_end = 0;
    for (_, span) in &found {
        assert!(span.start < span.end);
        assert!(last_end <= span.start);
        for flag in covered.iter_mut().take(span.end).skip(span.start) {
            *flag = true;
        }
        last_end = span.end;
    }
    let comment = source.find('#').unwrap()..source.find('\n').unwrap();
    for (i, b) in source.bytes().enumerate() {
        let trivia = b == b' ' || comment.contains(&i);
        assert_eq!(covered[i], !trivia, "byte {i}");
    }
}

#[test]
fn peek_does_not_read() {
    let mut scanner = Scanner::new("a b").expect("Failed to lex");
    assert_eq!(scanner.peek(), Some(&word("a")));
    assert_eq!(scanner.peek_second(), Some(&word("b")));
    assert_eq!(scanner.peek_span(), 0..1);
    assert_eq!(scanner.next(), Some((word("a"), 0..1)));
    let copy = scanner.clone();
    scanner.advance();
    assert_eq!(scanner.peek(), None);
    assert_eq!(scanner.next(), None);
    assert_eq!(copy.tokens(), [word("b")]);
}

#[test]
fn error_names_line_and_column() {
    let error = lex("var x = 1\nvar y = `").unwrap_err();
    assert_eq!(
        error,
        "Lexing error at line 2, column 9:\nvar y = `\n        ^\nUnexpected character: '`'"
    );
    assert_eq!(format_lexing_error("a ` b", 2..3), error_at_first_line());
}

fn error_at_first_line() -> String {
    "Lexing error at line 1, column 3:\na ` b\n  ^\nUnexpected character: '`'".to_string()
}

#[test]
fn error_shows_a_whole_character() {
    let error = lex("x = \u{e9}").unwrap_err();
    assert_eq!(
        error,
        "Lexing error at line 1, column 5:\nx = \u{e9}\n    ^\nUnexpected character: '\u{e9}'"
    );
}

#[test]
fn error_is_the_first_one() {
    let error = lex("a\r\nb ` c ` d").unwrap_err();
    assert!(error.starts_with("Lexing error at line 2, column 3:\nb ` c ` d\n"));
}

#[test]
fn indent_of_two_levels_at_once() {
    let tokens = indent::lex("a\n  b\n      c\nd").expect("Failed to lex").tokens();
    assert_eq!(
        tokens,
        [
            word("a"),
            Token::Indent,
            word("b"),
            Token::Indent,
            word("c"),
            Token::Dedent,
            Token::Dedent,
            Token::Dedent,
            word("d"),
        ]
    );
}

#[test]
fn comment_lines_do_not_change_the_indentation() {
    let tokens = indent::lex("a\n    b\n# note\n    c").expect("Failed to lex").tokens();
    assert_eq!(tokens, [word("a"), Token::Indent, word("b"), Token::NewLine, word("c"), Token::Dedent]);
}
