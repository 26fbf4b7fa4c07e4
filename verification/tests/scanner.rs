use treewalk::lexer::{get_tokens, Scanner, Token, TokenType};

#[test]
fn test_scan_1() {
    let source = String::from("(");
    let tokens = get_tokens(source).unwrap();
    let expected = vec![
        Token {
            token_type: TokenType::LeftParen,
            lexeme: String::from("("),
            literal: None,
            line: 1,
        },
        Token::eof(1),
    ];
    assert_eq!(&tokens[..], &expected[..]);
}

#[test]
fn test_scan_2() {
    let source = String::from("()");
    let tokens = get_tokens(source).unwrap();
    let expected = vec![
        Token {
            token_type: TokenType::LeftParen,
            lexeme: String::from("("),
            literal: None,
            line: 1,
        },
        Token {
            token_type: TokenType::RightParen,
            lexeme: String::from(")"),
            literal: None,
            line: 1,
        },
        Token::eof(1),
    ];
    assert_eq!(&tokens[..], &expected[..]);
}

#[test]
fn test_scan_3() {
    let source = String::from(
        "!=
// aaa
>= /",
    );
    let tokens = get_tokens(source).unwrap();
    let expected = vec![
        Token {
            token_type: TokenType::BangEqual,
            lexeme: String::from("!="),
            literal: None,
            line: 1,
        },
        Token {
            token_type: TokenType::GreaterEqual,
            lexeme: String::from(">="),
            literal: None,
            line: 3,
        },
        Token {
            token_type: TokenType::Slash,
            lexeme: String::from("/"),
            literal: None,
            line: 3,
        },
        Token::eof(3),
    ];
    assert_eq!(&tokens[..], &expected[..]);
}

#[test]
fn test_scan_4() {
    let source = String::from(
        "// this is a comment
(( )){} // grouping stuff
>= / // operators",
    );
    let tokens = get_tokens(source).unwrap();
    let expected = vec![
        Token {
            token_type: TokenType::LeftParen,
            lexeme: String::from("("),
            literal: None,
            line: 2,
        },
        Token {
            token_type: TokenType::LeftParen,
            lexeme: String::from("("),
            literal: None,
            line: 2,
        },
        Token {
            token_type: TokenType::RightParen,
            lexeme: String::from(")"),
            literal: None,
            line: 2,
        },
        Token {
            token_type: TokenType::RightParen,
            lexeme: String::from(")"),
            literal: None,
            line: 2,
        },
        Token {
            token_type: TokenType::LeftBrace,
            lexeme: String::from("{"),
            literal: None,
            line: 2,
        },
        Token {
            token_type: TokenType::RightBrace,
            lexeme: String::from("}"),
            literal: None,
            line: 2,
        },
        Token {
            token_type: TokenType::GreaterEqual,
            lexeme: String::from(">="),
            literal: None,
            line: 3,
        },
        Token {
            token_type: TokenType::Slash,
            lexeme: String::from("/"),
            literal: None,
            line: 3,
        },
        Token::eof(3),
    ];
    assert_eq!(&tokens[..], &expected[..]);
}

#[test]
fn test_scan_empty_source() {
    let tokens = get_tokens(String::new()).unwrap();
    let expected = vec![Token::eof(1)];
    assert_eq!(&tokens[..], &expected[..]);
}

#[test]
fn test_scan_all_single_punctuation() {
    let tokens = get_tokens(String::from("(){},.-+;*/")).unwrap();
    let kinds: Vec<&TokenType> = tokens.iter().map(|t| &t.token_type).collect();
    let expected = vec![
        TokenType::LeftParen,
        TokenType::RightParen,
        TokenType::LeftBrace,
        TokenType::RightBrace,
        TokenType::Comma,
        TokenType::Dot,
        TokenType::Minus,
        TokenType::Plus,
        TokenType::Semicolon,
        TokenType::Star,
        TokenType::Slash,
        TokenType::Eof,
    ];
    let expected_refs: Vec<&TokenType> = expected.iter().collect();
    assert_eq!(kinds, expected_refs);
    assert_eq!(tokens[0].lexeme, "(");
    assert_eq!(tokens[10].lexeme, "/");
    assert!(tokens.iter().all(|t| t.line == 1));
}

#[test]
fn test_scan_single_char_operators() {
    let tokens = get_tokens(String::from("! = < >")).unwrap();
    let expected = vec![
        Token {
            token_type: TokenType::Bang,
            lexeme: String::from("!"),
            literal: None,
            line: 1,
        },
        Token {
            token_type: TokenType::Equal,
            lexeme: String::from("="),
            literal: None,
            line: 1,
        },
        Token {
            token_type: TokenType::Less,
            lexeme: String::from("<"),
            literal: None,
            line: 1,
        },
        Token {
            token_type: TokenType::Greater,
            lexeme: String::from(">"),
            literal: None,
            line: 1,
        },
        Token::eof(1),
    ];
    assert_eq!(&tokens[..], &expected[..]);
}

#[test]
fn test_scan_two_char_operators_win() {
    let tokens = get_tokens(String::from("!===<=>=")).unwrap();
    let expected = vec![
        Token {
            token_type: TokenType::BangEqual,
            lexeme: String::from("!="),
            literal: None,
            line: 1,
        },
        Token {
            token_type: TokenType::EqualEqual,
            lexeme: String::from("=="),
            literal: None,
            line: 1,
        },
        Token {
            token_type: TokenType::LessEqual,
            lexeme: String::from("<="),
            literal: None,
            line: 1,
        },
        Token {
            token_type: TokenType::GreaterEqual,
            lexeme: String::from(">="),
            literal: None,
            line: 1,
        },
        Token::eof(1),
    ];
    assert_eq!(&tokens[..], &expected[..]);
}

#[test]
fn test_scan_operator_at_end_of_input() {
    // the lookahead must not read past the end: a bare "!" is a Bang
    let tokens = get_tokens(String::from("!")).unwrap();
    let expected = vec![
        Token {
            token_type: TokenType::Bang,
            lexeme: String::from("!"),
            literal: None,
            line: 1,
        },
        Token::eof(1),
    ];
    assert_eq!(&tokens[..], &expected[..]);
}

#[test]
fn test_scan_comment_without_trailing_newline() {
    let tokens = get_tokens(String::from("// just a comment")).unwrap();
    let expected = vec![Token::eof(1)];
    assert_eq!(&tokens[..], &expected[..]);
}

#[test]
fn test_scan_whitespace_only() {
    let tokens = get_tokens(String::from(" \t\r ")).unwrap();
    let expected = vec![Token::eof(1)];
    assert_eq!(&tokens[..], &expected[..]);
}

#[test]
fn test_scan_line_accounting() {
    // a token's line is 1 plus the newlines strictly before its first character
    let tokens = get_tokens(String::from("\n\n(")).unwrap();
    let expected = vec![
        Token {
            token_type: TokenType::LeftParen,
            lexeme: String::from("("),
            literal: None,
            line: 3,
        },
        Token::eof(3),
    ];
    assert_eq!(&tokens[..], &expected[..]);
}

#[test]
fn test_scan_unexpected_character() {
    let errors = get_tokens(String::from("@")).unwrap_err();
    assert_eq!(errors.len(), 1);
    assert_eq!(errors[0].message, "Unexpected character");
    assert_eq!(errors[0].line, 1);
    // the pass itself still runs to completion: one end-of-input token
    let mut scanner = Scanner::new();
    scanner.scan_tokens(String::from("@"));
    let expected = vec![Token::eof(1)];
    assert_eq!(&scanner.tokens[..], &expected[..]);
}

#[test]
fn test_scan_error_lines() {
    let errors = get_tokens(String::from("@\n#")).unwrap_err();
    assert_eq!(errors.len(), 2);
    assert_eq!(errors[0].message, "Unexpected character");
    assert_eq!(errors[0].line, 1);
    assert_eq!(errors[1].message, "Unexpected character");
    assert_eq!(errors[1].line, 2);
}

#[test]
fn test_scan_error_is_not_fatal() {
    // an unrecognized character suppresses no later token
    let mut scanner = Scanner::new();
    scanner.scan_tokens(String::from("@("));
    assert!(scanner.has_errors());
    assert_eq!(scanner.errors.len(), 1);
    assert_eq!(scanner.errors[0].line, 1);
    let expected = vec![
        Token {
            token_type: TokenType::LeftParen,
            lexeme: String::from("("),
            literal: None,
            line: 1,
        },
        Token::eof(1),
    ];
    assert_eq!(&scanner.tokens[..], &expected[..]);
}

#[test]
fn test_scan_twice_is_identical() {
    // identical sources yield structurally identical results
    let source = "!=\n// aaa\n>= / @";
    let first = get_tokens(String::from(source));
    let second = get_tokens(String::from(source));
    assert_eq!(first, second);
    let clean = "(( )) {}";
    let first_clean = get_tokens(String::from(clean)).unwrap();
    let second_clean = get_tokens(String::from(clean)).unwrap();
    assert_eq!(first_clean, second_clean);
}

#[test]
fn test_eof_token_shape() {
    let t = Token::eof(7);
    assert_eq!(t.token_type, TokenType::Eof);
    assert_eq!(t.lexeme, "");
    assert_eq!(t.literal, None);
    assert_eq!(t.line, 7);
}

#[test]
fn test_scanner_without_errors() {
    let mut scanner = Scanner::new();
    scanner.scan_tokens(String::from("()"));
    assert!(!scanner.has_errors());
    assert_eq!(scanner.errors.len(), 0);
    assert_eq!(scanner.tokens.len(), 3);
}
