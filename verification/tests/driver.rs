use treewalk::interp::{run, Interpreter};
use treewalk::lexer::{Literal, Token, TokenType};

#[test]
fn test_interpreter_run_counts_tokens() {
    let mut interpreter = Interpreter::new();
    let outcome = interpreter.run(String::from("("));
    // the count includes the end-of-input token
    assert_eq!(outcome, Ok(2));
}

#[test]
fn test_interpreter_run_surfaces_errors() {
    let mut interpreter = Interpreter::new();
    let errors = interpreter.run(String::from("@")).unwrap_err();
    assert_eq!(errors.len(), 1);
    assert_eq!(errors[0].message, "Unexpected character");
    assert_eq!(errors[0].line, 1);
}

#[test]
fn test_run_fresh_interpreter() {
    assert_eq!(run(String::from("() {}")), Ok(5));
    assert!(run(String::from("^")).is_err());
}

#[test]
fn test_literal_payloads() {
    let name = Literal::Identifier(String::from("x"));
    assert_eq!(name, Literal::Identifier(String::from("x")));
    assert_ne!(name, Literal::Str(String::from("x")));
    let number = Literal::Num(2.5f64.to_bits());
    assert_eq!(number, Literal::Num(2.5f64.to_bits()));
    let with_payload = Token {
        token_type: TokenType::String,
        lexeme: String::from("\"hi\""),
        literal: Some(Literal::Str(String::from("hi"))),
        line: 4,
    };
    assert_eq!(with_payload.literal, Some(Literal::Str(String::from("hi"))));
}
