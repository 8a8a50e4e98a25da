use rlisp::lexer::{Lexer, Token, TokenTag};

fn collect_tokens(code: &str) -> Vec<Token> {
    let mut lexer = Lexer::new(code);
    let mut tokens = Vec::new();
    let mut token = lexer.init().expect("lexing failed");
    loop {
        let is_eof = matches!(token.tag, TokenTag::EOF);
        tokens.push(token);
        if is_eof {
            return tokens;
        }
        token = lexer.next().expect("lexing failed");
    }
}

#[test]
fn round_trip_define_tokens() {
    let tokens = collect_tokens("(define x 12)");
    let tags: Vec<&TokenTag> = tokens.iter().map(|t| &t.tag).collect();
    assert_eq!(tags.len(), 6);
    assert!(matches!(tags[0], TokenTag::LParen));
    assert!(matches!(tags[1], TokenTag::Identifier(s) if s == "define"));
    assert!(matches!(tags[2], TokenTag::Identifier(s) if s == "x"));
    assert!(matches!(tags[3], TokenTag::IntegerLiteral(12)));
    assert!(matches!(tags[4], TokenTag::RParen));
    assert!(matches!(tags[5], TokenTag::EOF));
    for pair in tokens.windows(2) {
        assert!(pair[0].offset <= pair[1].offset, "offsets must not decrease");
    }
    assert_eq!(tokens[0].offset, 0);
    assert_eq!(tokens[1].offset, 1);
    assert_eq!(tokens[2].offset, 8);
    assert_eq!(tokens[3].offset, 10);
    assert_eq!(tokens[4].offset, 12);
}

#[test]
fn next_past_end_keeps_returning_eof() {
    let mut lexer = Lexer::new("x");
    let first = lexer.init().expect("lexing failed");
    assert!(matches!(first.tag, TokenTag::Identifier(_)));
    let eof1 = lexer.next().expect("lexing failed");
    let eof2 = lexer.next().expect("lexing failed");
    let eof3 = lexer.next().expect("lexing failed");
    assert!(matches!(eof1.tag, TokenTag::EOF));
    assert_eq!(eof1, eof2);
    assert_eq!(eof2, eof3);
}

#[test]
fn empty_input_is_eof_at_start() {
    let mut lexer = Lexer::new("");
    let token = lexer.init().expect("lexing failed");
    assert!(matches!(token.tag, TokenTag::EOF));
    assert_eq!(token.offset, -1);
    assert_eq!(token.row, 1);
    assert_eq!(token.col, 0);
}

#[test]
fn unterminated_string_reports_unexpected_eof() {
    let mut lexer = Lexer::new("\"abc");
    let err = lexer.init().expect_err("an unterminated string must fail");
    assert_eq!(err.message, "unexpected EOF when parsing string");
    assert_eq!(err.offset, 0);
}

#[test]
fn string_escapes_are_decoded() {
    let mut lexer = Lexer::new("\"a\\nb\\tc\\\"d\\r\"");
    let token = lexer.init().expect("lexing failed");
    match token.tag {
        TokenTag::StringLiteral(s) => assert_eq!(s, "a\nb\tc\"d\r"),
        other => panic!("expected a string literal, got {:?}", other),
    }
}

#[test]
fn unknown_escape_is_refused() {
    let mut lexer = Lexer::new("\"a\\zb\"");
    let err = lexer.init().expect_err("an unknown escape must fail");
    assert_eq!(err.message, "unknown escaped character");
    assert_eq!(err.offset, 0);
}

#[test]
fn backslash_at_end_of_input_is_unexpected_eof() {
    let mut lexer = Lexer::new("\"ab\\");
    let err = lexer.init().expect_err("a dangling escape must fail");
    assert_eq!(err.message, "unexpected EOF when parsing string");
}

#[test]
fn integer_overflow_is_a_lexical_error() {
    let mut lexer = Lexer::new("99999999999");
    let err = lexer.init().expect_err("an overflowing literal must fail");
    assert_eq!(err.message, "number too large to fit in target type");
    assert_eq!(err.offset, 0);
}

#[test]
fn largest_integer_still_lexes() {
    let mut lexer = Lexer::new("2147483647");
    let token = lexer.init().expect("lexing failed");
    assert!(matches!(token.tag, TokenTag::IntegerLiteral(2147483647)));
    let mut lexer = Lexer::new("2147483648");
    assert!(lexer.init().is_err());
}

#[test]
fn unexpected_character_is_refused() {
    let mut lexer = Lexer::new("  +  ");
    let err = lexer.init().expect_err("an unknown character must fail");
    assert_eq!(err.message, "unexpected character");
    assert_eq!(err.offset, 2);
}

#[test]
fn rows_and_columns_follow_line_breaks() {
    let tokens = collect_tokens("a\n  bc");
    assert_eq!(tokens[0].row, 1);
    assert_eq!(tokens[0].col, 1);
    assert_eq!(tokens[1].row, 2);
    assert_eq!(tokens[1].col, 3);
    assert_eq!(tokens[1].offset, 4);
}

#[test]
fn identifiers_take_digits_and_dashes() {
    let tokens = collect_tokens("foo-bar2 baz");
    assert!(matches!(&tokens[0].tag, TokenTag::Identifier(s) if s == "foo-bar2"));
    assert!(matches!(&tokens[1].tag, TokenTag::Identifier(s) if s == "baz"));
}
