use draca::expression::Expression;
use draca::parser::{number_text, parse, ParseError};

fn num(text: &str) -> Expression {
    Expression::number(text)
}

fn sym(text: &str) -> Expression {
    Expression::symbol(text)
}

fn lst(items: Vec<Expression>) -> Expression {
    Expression::List(items)
}

fn is_number(text: &str) -> bool {
    number_text(&text.chars().collect())
}

#[test]
fn an_empty_text_is_an_empty_program() {
    assert_eq!(parse(""), Ok(vec![]));
    assert_eq!(parse("  \n\t "), Ok(vec![]));
}

#[test]
fn atoms() {
    assert_eq!(
        parse("nil #t #f 12 -1.5 x std::math::+ /= nil? #true"),
        Ok(vec![
            Expression::Nil,
            Expression::Bool(true),
            Expression::Bool(false),
            num("12"),
            num("-1.5"),
            sym("x"),
            sym("std::math::+"),
            sym("/="),
            sym("nil?"),
            sym("#true"),
        ])
    );
}

#[test]
fn lists_nest() {
    assert_eq!(
        parse("(define (square x) (* x x))"),
        Ok(vec![lst(vec![
            sym("define"),
            lst(vec![sym("square"), sym("x")]),
            lst(vec![sym("*"), sym("x"), sym("x")]),
        ])])
    );
    assert_eq!(parse("()"), Ok(vec![lst(vec![])]));
    assert_eq!(parse("( ( ) )"), Ok(vec![lst(vec![lst(vec![])])]));
    assert_eq!(parse("(a)(b)"), Ok(vec![lst(vec![sym("a")]), lst(vec![sym("b")])]));
}

#[test]
fn strings_hold_anything_but_a_double_quote() {
    assert_eq!(parse("\"hi there (x)\""), Ok(vec![Expression::string("hi there (x)")]));
    assert_eq!(parse("\"\""), Ok(vec![Expression::string("")]));
    assert_eq!(
        parse("(f\"a\"b)"),
        Ok(vec![lst(vec![sym("f"), Expression::string("a"), sym("b")])])
    );
}

#[test]
fn quotes_wrap_the_next_form() {
    assert_eq!(parse("'x"), Ok(vec![Expression::Quoted(Box::new(sym("x")))]));
    assert_eq!(
        parse("'(1 'a)"),
        Ok(vec![Expression::Quoted(Box::new(lst(vec![
            num("1"),
            Expression::Quoted(Box::new(sym("a"))),
        ])))])
    );
    assert_eq!(parse("a'b"), Ok(vec![sym("a'b")]));
}

#[test]
fn what_is_no_program() {
    assert_eq!(parse("(a"), Err(ParseError::UnexpectedEnd));
    assert_eq!(parse("(a (b)"), Err(ParseError::UnexpectedEnd));
    assert_eq!(parse("\"open"), Err(ParseError::UnexpectedEnd));
    assert_eq!(parse("'"), Err(ParseError::UnexpectedEnd));
    assert_eq!(parse(")"), Err(ParseError::UnexpectedClose));
    assert_eq!(parse("(a))"), Err(ParseError::UnexpectedClose));
    assert_eq!(parse("')"), Err(ParseError::UnexpectedClose));
    assert_eq!(parse("' x"), Err(ParseError::EmptyQuote));
    assert_eq!(parse("('\n)"), Err(ParseError::EmptyQuote));
}

#[test]
fn what_is_written_as_a_number() {
    for text in ["0", "12", "+3", "-3", "1.5", "1.", ".5", "-.5", "1e5", "1E5", "1e+5", "2.5e-10", "1.e3"] {
        assert!(is_number(text), "{text}");
        assert!(text.parse::<f64>().is_ok(), "{text}");
    }
    for text in ["inf", "-inf", "+Infinity", "INFINITY", "nan", "NaN", "-nAn"] {
        assert!(is_number(text), "{text}");
    }
    for text in ["", "+", "-", ".", "e5", "1e", "1e+", "1.5.2", "1x", "x1", "--1", "1e5x", "+."] {
        assert!(!is_number(text), "{text}");
    }
}

#[test]
fn printed_values_read_back() {
    let values = vec![
        Expression::Nil,
        Expression::Bool(true),
        Expression::Bool(false),
        num("25"),
        num("-0.5"),
        sym("std::math::+"),
        Expression::string("a b (c)"),
        Expression::Quoted(Box::new(lst(vec![sym("x"), Expression::string("")]))),
        lst(vec![]),
        lst(vec![sym("f"), lst(vec![num("1"), Expression::Nil]), Expression::string("s")]),
    ];
    for value in values {
        assert_eq!(parse(&value.to_string()), Ok(vec![value.copy()]), "{value:?}");
    }
}

#[test]
fn a_number_is_what_reads_as_a_float() {
    let texts = [
        "", "0", "00", "1", "-1", "+1", "1.", ".1", ".", "-.", "+.5", "1.5e3", "1.5E-3", "1e", "e1",
        "1e1.5", "1_000", "0x10", "inf", "Inf", "-inf", "+inf", "infinity", "-Infinity", "infinit",
        "infinityy", "in", "nan", "NAN", "+nan", "-NaN", "nana", "na", "nil", "i", "∞", "１", "1 ",
        " 1", "--1", "+-1", "1e+", "1e-0", "1.e", "1.0e", "1..0", "١",
    ];
    for text in texts {
        assert_eq!(is_number(text), text.parse::<f64>().is_ok(), "{text:?}");
    }
}

#[test]
fn the_words_for_infinity_read_as_numbers() {
    assert_eq!(parse("(inf -inf NaN info)"), Ok(vec![lst(vec![
        num("inf"),
        num("-inf"),
        num("NaN"),
        sym("info"),
    ])]));
}
