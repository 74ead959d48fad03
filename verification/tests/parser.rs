use c_compiler::lexer::{lex, Token};
use c_compiler::parser::{parse, ParseFailure};

fn parse_text(text: &str) -> String {
    parse(&lex(text).unwrap()).unwrap().to_text()
}

fn parse_failure(text: &str) -> ParseFailure {
    parse(&lex(text).unwrap()).unwrap_err().0
}

#[test]
fn parse_return_constant() {
    assert_eq!(
        parse_text("int main(void) { return 2; }"),
        "Program(\n    Function(\n        name: \"main\"\n        body: Return(Constant(2))\n    )\n)"
    );
}

#[test]
fn parse_unary_operators_and_parentheses() {
    assert_eq!(
        parse_text("int f(void) { return -(~((3))); }"),
        "Program(\n    Function(\n        name: \"f\"\n        body: Return(Unary(Negate, Unary(Complement, Constant(3))))\n    )\n)"
    );
}

#[test]
fn parse_error_unexpected_end() {
    assert!(matches!(parse_failure("int main(void) { return 2;"), ParseFailure::UnexpectedEnd));
    assert!(matches!(parse(&[]).unwrap_err().0, ParseFailure::UnexpectedEnd));
}

#[test]
fn parse_error_expected_token() {
    match parse_failure("int main(int) { return 2; }") {
        ParseFailure::Expected(e, f) => {
            assert_eq!(e, Token::Void);
            assert_eq!(f, Token::Int);
        }
        other => panic!("unexpected {:?}", other),
    }
}

#[test]
fn parse_error_expected_identifier() {
    match parse_failure("int 3(void) { return 2; }") {
        ParseFailure::ExpectedIdentifier(t) => assert_eq!(t, Token::Constant(3)),
        other => panic!("unexpected {:?}", other),
    }
}

#[test]
fn parse_error_end_in_expression() {
    let tokens = lex("int main(void) { return").unwrap();
    assert!(matches!(parse(&tokens).unwrap_err().0, ParseFailure::EndInExpression));
}

#[test]
fn parse_error_malformed_expression() {
    match parse_failure("int main(void) { return --2; }") {
        ParseFailure::MalformedExpression(t) => assert_eq!(t, Token::DoubleHyphen),
        other => panic!("unexpected {:?}", other),
    }
    match parse_failure("int main(void) { return ; }") {
        ParseFailure::MalformedExpression(t) => assert_eq!(t, Token::Semicolon),
        other => panic!("unexpected {:?}", other),
    }
}

#[test]
fn parse_error_trailing_token() {
    match parse_failure("int main(void) { return 2; } foo") {
        ParseFailure::TrailingToken(t) => assert_eq!(t, Token::Identifier("foo".to_string())),
        other => panic!("unexpected {:?}", other),
    }
}

#[test]
fn parse_error_missing_close_paren() {
    match parse_failure("int main(void) { return (2; }") {
        ParseFailure::Expected(e, f) => {
            assert_eq!(e, Token::CloseParen);
            assert_eq!(f, Token::Semicolon);
        }
        other => panic!("unexpected {:?}", other),
    }
}

/// The tokens that spell a program parse back to it.
#[test]
fn parse_inverts_spelling() {
    let tokens = vec![
        Token::Int,
        Token::Identifier("g".to_string()),
        Token::OpenParen,
        Token::Void,
        Token::CloseParen,
        Token::OpenBrace,
        Token::Return,
        Token::Tilde,
        Token::Hyphen,
        Token::Constant(5),
        Token::Semicolon,
        Token::CloseBrace,
    ];
    assert_eq!(
        parse(&tokens).unwrap().to_text(),
        "Program(\n    Function(\n        name: \"g\"\n        body: Return(Unary(Complement, Unary(Negate, Constant(5))))\n    )\n)"
    );
}

#[test]
fn error_messages() {
    assert_eq!(lex("int @ $").unwrap_err().to_text(), "lexer error: unexpected character '@'");
    assert_eq!(
        lex("99999999999999999999").unwrap_err().to_text(),
        "lexer error: invalid integer constant '99999999999999999999': number too large to fit in target type"
    );
    let trailing = vec![
        Token::Int,
        Token::Identifier("main".to_string()),
        Token::OpenParen,
        Token::Void,
        Token::CloseParen,
        Token::OpenBrace,
        Token::Return,
        Token::Constant(2),
        Token::Semicolon,
        Token::CloseBrace,
        Token::Semicolon,
    ];
    assert_eq!(
        parse(&trailing).unwrap_err().to_text(),
        "parse error: unexpected token Semicolon after function definition"
    );
    assert_eq!(
        parse(&lex("int main(void) { return --2; }").unwrap()).unwrap_err().to_text(),
        "parse error: malformed expression: unexpected token DoubleHyphen"
    );
    assert_eq!(
        parse(&lex("int main(int) { return 2; }").unwrap()).unwrap_err().to_text(),
        "parse error: expected Void, got Int"
    );
    assert_eq!(
        parse(&lex("int 7(void) { return 2; }").unwrap()).unwrap_err().to_text(),
        "parse error: expected identifier, got Constant(7)"
    );
    assert_eq!(
        parse(&lex("int main(void) { return 2; } x").unwrap()).unwrap_err().to_text(),
        "parse error: unexpected token Identifier(\"x\") after function definition"
    );
    assert_eq!(parse(&[]).unwrap_err().to_text(), "parse error: unexpected end of input");
    assert_eq!(
        parse(&lex("int main(void) { return").unwrap()).unwrap_err().to_text(),
        "parse error: unexpected end of input in expression"
    );
}

#[test]
fn token_debug_text_matches_debug() {
    let tokens = lex("int main ( void ) { return ~ - -- 42 ; } _x").unwrap();
    for t in &tokens {
        assert_eq!(t.debug_text(), format!("{:?}", t));
    }
    assert_eq!(Token::Constant(-3).debug_text(), format!("{:?}", Token::Constant(-3)));
}
