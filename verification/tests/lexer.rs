use c_compiler::lexer::{lex, LexFailure, Token};

#[test]
fn test_simple_program() {
    let tokens = lex("int main(void) { return 2; }").unwrap();
    assert_eq!(
        tokens,
        vec![
            Token::Int,
            Token::Identifier("main".to_string()),
            Token::OpenParen,
            Token::Void,
            Token::CloseParen,
            Token::OpenBrace,
            Token::Return,
            Token::Constant(2),
            Token::Semicolon,
            Token::CloseBrace,
        ]
    );
}

#[test]
fn test_invalid_character() {
    let result = lex("@");
    assert!(result.is_err());
}

#[test]
fn test_identifier_starting_with_keyword() {
    let tokens = lex("return_value").unwrap();
    assert_eq!(tokens, vec![Token::Identifier("return_value".to_string())]);
}

#[test]
fn lex_empty_and_blank_input() {
    assert_eq!(lex("").unwrap(), vec![]);
    assert_eq!(lex(" \t\r\n  ").unwrap(), vec![]);
}

#[test]
fn lex_double_hyphen_before_hyphen() {
    assert_eq!(lex("--").unwrap(), vec![Token::DoubleHyphen]);
    assert_eq!(lex("---").unwrap(), vec![Token::DoubleHyphen, Token::Hyphen]);
    assert_eq!(lex("- -").unwrap(), vec![Token::Hyphen, Token::Hyphen]);
    assert_eq!(lex("-~2").unwrap(), vec![Token::Hyphen, Token::Tilde, Token::Constant(2)]);
}

#[test]
fn lex_keywords_need_a_word_boundary() {
    assert_eq!(lex("int").unwrap(), vec![Token::Int]);
    assert_eq!(lex("int(").unwrap(), vec![Token::Int, Token::OpenParen]);
    assert_eq!(lex("integer").unwrap(), vec![Token::Identifier("integer".to_string())]);
    assert_eq!(lex("void_").unwrap(), vec![Token::Identifier("void_".to_string())]);
    assert_eq!(lex("return2").unwrap(), vec![Token::Identifier("return2".to_string())]);
    assert_eq!(lex("_x1 void").unwrap(), vec![Token::Identifier("_x1".to_string()), Token::Void]);
}

#[test]
fn lex_unicode_word_characters() {
    // A letter outside ASCII continues an identifier but cannot start one.
    assert_eq!(lex("abé").unwrap(), vec![Token::Identifier("abé".to_string())]);
    assert!(matches!(lex("é").unwrap_err().0, LexFailure::UnexpectedCharacter('é')));
    // It also keeps a keyword from ending at a word boundary.
    assert_eq!(lex("intß").unwrap(), vec![Token::Identifier("intß".to_string())]);
}

#[test]
fn lex_constants() {
    assert_eq!(lex("0").unwrap(), vec![Token::Constant(0)]);
    assert_eq!(lex("007").unwrap(), vec![Token::Constant(7)]);
    assert_eq!(lex("9223372036854775807").unwrap(), vec![Token::Constant(i64::MAX)]);
    assert_eq!(lex("12;").unwrap(), vec![Token::Constant(12), Token::Semicolon]);
}

#[test]
fn lex_constant_overflow_is_an_error() {
    match lex("9223372036854775808").unwrap_err().0 {
        LexFailure::InvalidConstant(s) => assert_eq!(s, "9223372036854775808"),
        other => panic!("unexpected error {:?}", other),
    }
}

#[test]
fn lex_constant_followed_by_letter_is_an_error() {
    match lex("return 123abc;").unwrap_err().0 {
        LexFailure::UnexpectedCharacter(c) => assert_eq!(c, '1'),
        other => panic!("unexpected error {:?}", other),
    }
}

#[test]
fn lex_reports_the_first_bad_character() {
    match lex("int main @ #").unwrap_err().0 {
        LexFailure::UnexpectedCharacter(c) => assert_eq!(c, '@'),
        other => panic!("unexpected error {:?}", other),
    }
}

#[test]
fn lex_non_ascii_whitespace_separates_tokens() {
    assert_eq!(
        lex("return\u{00A0}1").unwrap(),
        vec![Token::Return, Token::Constant(1)]
    );
}

/// The lexer gives what first-match lexing with the `regex` crate gives.
#[test]
fn lex_agrees_with_regex_lexing() {
    let patterns = [
        r"^int\b", r"^void\b", r"^return\b", r"^[a-zA-Z_]\w*\b", r"^[0-9]+\b", r"^\(", r"^\)",
        r"^\{", r"^\}", r"^;", r"^~", r"^--", r"^-",
    ];
    let regexes: Vec<regex::Regex> = patterns.iter().map(|p| regex::Regex::new(p).unwrap()).collect();
    let reference = |input: &str| -> Option<Vec<Token>> {
        let mut tokens = Vec::new();
        let mut remaining = input;
        while !remaining.is_empty() {
            remaining = remaining.trim_start();
            if remaining.is_empty() {
                break;
            }
            let mut found = None;
            for (k, re) in regexes.iter().enumerate() {
                if let Some(m) = re.find(remaining) {
                    found = Some((k, m.len()));
                    break;
                }
            }
            let (k, len) = found?;
            let text = &remaining[..len];
            tokens.push(match k {
                0 => Token::Int,
                1 => Token::Void,
                2 => Token::Return,
                3 => Token::Identifier(text.to_string()),
                4 => Token::Constant(text.parse::<i64>().ok()?),
                5 => Token::OpenParen,
                6 => Token::CloseParen,
                7 => Token::OpenBrace,
                8 => Token::CloseBrace,
                9 => Token::Semicolon,
                10 => Token::Tilde,
                11 => Token::DoubleHyphen,
                _ => Token::Hyphen,
            });
            remaining = &remaining[len..];
        }
        Some(tokens)
    };
    let inputs = [
        "int main(void) { return 2; }",
        "int main(void){return ~(-(--2));}",
        "return_value int_ void3 _ __x",
        "123abc",
        "12 34\n\t56",
        "intéger int\u{0301} a\u{200D}b x\u{0660}y 5\u{0660}",
        "\u{3000}return\u{2028}7;",
        "99999999999999999999",
        "a@b",
        "- -- --- ~~",
        "Ωmega αβ",
        "int\u{00A0}main",
    ];
    for input in inputs.iter() {
        let ours = lex(input).ok();
        assert_eq!(ours, reference(input), "input {:?}", input);
    }
}
