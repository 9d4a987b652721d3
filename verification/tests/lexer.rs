use draca::env::Environment;
use draca::expression::{Expression, Native};
use draca::lexer::{parse_token_list, Token, TokenError};

fn symbol(text: &str) -> Token {
    Token::Symbol(String::from(text))
}

fn number(text: &str) -> Token {
    Token::Number(String::from(text))
}

#[test]
fn parentheses_are_tokens_of_their_own() {
    assert_eq!(
        Token::tokenize("(+ 1(* x 2.5))"),
        Ok(vec![
            Token::OpenParen,
            symbol("+"),
            number("1"),
            Token::OpenParen,
            symbol("*"),
            symbol("x"),
            number("2.5"),
            Token::CloseParen,
            Token::CloseParen,
        ])
    );
    assert_eq!(Token::tokenize(""), Ok(vec![]));
    assert_eq!(Token::tokenize(" \u{a0}\n"), Ok(vec![]));
    assert_eq!(Token::tokenize("a\u{2003}b"), Ok(vec![symbol("a"), symbol("b")]));
}

#[test]
fn tokens_are_the_words_that_std_splits() {
    for text in ["(define x 1)", "a  b\tc", "((x))y", " lone ", "x)(y", "1e5 -2 +"] {
        let padded = text.replace('(', " ( ").replace(')', " ) ");
        let expected: Vec<String> = padded.split_whitespace().map(ToString::to_string).collect();
        let tokens: Vec<String> =
            Token::tokenize(text).unwrap().iter().map(|t| t.to_string()).collect();
        assert_eq!(tokens, expected, "{text:?}");
    }
}

#[test]
fn tokens_print_as_their_text() {
    assert_eq!(Token::OpenParen.to_string(), "(");
    assert_eq!(Token::CloseParen.to_string(), ")");
    assert_eq!(number("1.5").to_string(), "1.5");
    assert_eq!(symbol("x").to_string(), "x");
}

#[test]
fn a_list_is_read_from_tokens() {
    let tokens = Token::tokenize("(+ 1 (* 2 3) x) ignored").unwrap();
    assert_eq!(
        parse_token_list(&tokens),
        Ok(Expression::List(vec![
            Expression::symbol("+"),
            Expression::number("1"),
            Expression::List(vec![
                Expression::symbol("*"),
                Expression::number("2"),
                Expression::number("3"),
            ]),
            Expression::symbol("x"),
        ]))
    );
}

#[test]
fn a_list_may_stay_open() {
    let tokens = Token::tokenize("(a (b c").unwrap();
    assert_eq!(
        parse_token_list(&tokens),
        Ok(Expression::List(vec![
            Expression::symbol("a"),
            Expression::List(vec![Expression::symbol("b"), Expression::symbol("c")]),
        ]))
    );
    assert_eq!(parse_token_list(&Token::tokenize("()").unwrap()), Ok(Expression::List(vec![])));
}

#[test]
fn tokens_must_start_with_an_open_parenthesis() {
    assert_eq!(parse_token_list(&[].to_vec()), Err(TokenError::ExpectedOpenParen));
    assert_eq!(
        parse_token_list(&Token::tokenize("x (y)").unwrap()),
        Err(TokenError::ExpectedOpenParen)
    );
    assert_eq!(
        parse_token_list(&Token::tokenize(") x").unwrap()),
        Err(TokenError::ExpectedOpenParen)
    );
}

#[test]
fn the_calculator_environment() {
    let env = Environment::math_std_env();
    assert_eq!(env.get("+"), Some(&Expression::Func(Native::Add)));
    assert_eq!(env.get("="), Some(&Expression::Func(Native::Eq)));
    assert_eq!(env.get("pi"), Some(&Expression::number("3.141592653589793")));
    assert_eq!(env.get("rem"), None);
    let scopes: Vec<String> = env.scopes().iter().map(|s| s.to_string()).collect();
    assert_eq!(scopes, ["std::math", "std::cmp", "std::math::consts", "local"]);
    assert_eq!(env.len(), 6);
}

#[test]
fn white_space_is_what_std_says() {
    let spaces = [
        '\u{9}', '\u{a}', '\u{b}', '\u{c}', '\u{d}', ' ', '\u{85}', '\u{a0}', '\u{1680}',
        '\u{2000}', '\u{2005}', '\u{200a}', '\u{2028}', '\u{2029}', '\u{202f}', '\u{205f}',
        '\u{3000}',
    ];
    for c in spaces {
        assert!(c.is_whitespace());
        assert_eq!(Token::tokenize(&format!("a{c}b")), Ok(vec![symbol("a"), symbol("b")]));
    }
    let mut count = 0;
    for code in 0..=0x10ffffu32 {
        if let Some(c) = char::from_u32(code) {
            if c.is_whitespace() {
                count += 1;
            }
        }
    }
    assert_eq!(count, 25);
    for c in ['\u{8}', '\u{e}', '\u{1f}', '\u{200b}', '\u{2060}', '\u{feff}', '\u{180e}'] {
        assert!(!c.is_whitespace());
        assert_eq!(Token::tokenize(&format!("a{c}b")).unwrap().len(), 1);
    }
}
