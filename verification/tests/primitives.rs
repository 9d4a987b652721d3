use draca::env::Environment;
use draca::expression::{Expression, Native, Procedure};
use draca::primitives;
use draca::primitives::{
    append, as_list, builtin, cons, extract_list, fits_in_a_string, from_list, is_empty, len, list,
    not,
};

fn num(text: &str) -> Expression {
    Expression::number(text)
}

fn lst(items: Vec<Expression>) -> Expression {
    Expression::List(items)
}

fn quoted(e: Expression) -> Expression {
    Expression::Quoted(Box::new(e))
}

fn err(message: &str) -> Result<Expression, String> {
    Err(String::from(message))
}

#[test]
fn not_negates_booleans() {
    assert_eq!(not(&[Expression::Bool(true)]), Ok(Expression::Bool(false)));
    assert_eq!(not(&[Expression::Bool(false)]), Ok(Expression::Bool(true)));
    assert_eq!(not(&[Expression::Nil]), Ok(Expression::Nil));
    assert_eq!(not(&[Expression::Bool(true), num("1")]), Ok(Expression::Bool(false)));
    assert_eq!(not(&[num("1")]), err("`not` expects either a `nil` or a `bool`"));
    assert_eq!(not(&[]), err("`not` requires a single argument"));
}

#[test]
fn car_of_lists() {
    assert_eq!(primitives::car(&[lst(vec![num("1"), num("2")])]), Ok(num("1")));
    assert_eq!(primitives::car(&[quoted(lst(vec![num("1"), num("2")]))]), Ok(num("1")));
    assert_eq!(primitives::car(&[lst(vec![])]), Ok(Expression::Nil));
    assert_eq!(primitives::car(&[quoted(Expression::symbol("x"))]), Ok(quoted(lst(vec![]))));
    assert_eq!(primitives::car(&[num("1")]), Ok(quoted(lst(vec![]))));
    assert_eq!(primitives::car(&[]), err("`car` requires one argument"));
}

#[test]
fn cdr_of_lists() {
    assert_eq!(primitives::cdr(&[lst(vec![num("1"), num("2"), num("3")])]), Ok(lst(vec![num("2"), num("3")])));
    assert_eq!(primitives::cdr(&[lst(vec![num("1")])]), Ok(lst(vec![])));
    assert_eq!(primitives::cdr(&[lst(vec![])]), Ok(Expression::Nil));
    assert_eq!(primitives::cdr(&[quoted(lst(vec![num("1"), num("2")]))]), Ok(lst(vec![num("2")])));
    assert_eq!(primitives::cdr(&[quoted(lst(vec![]))]), Ok(Expression::Nil));
    assert_eq!(primitives::cdr(&[quoted(num("1"))]), Ok(Expression::Nil));
    assert_eq!(primitives::cdr(&[num("1")]), err("`cdr` requires one argument"));
    assert_eq!(primitives::cdr(&[]), err("`cdr` requires one argument"));
}

#[test]
fn cons_puts_the_head_first() {
    assert_eq!(cons(&[num("1"), lst(vec![num("2")])]), Ok(lst(vec![num("1"), num("2")])));
    assert_eq!(cons(&[num("1"), quoted(lst(vec![]))]), Ok(lst(vec![num("1")])));
    assert_eq!(cons(&[num("1"), num("2")]), err("expected a list"));
    assert_eq!(cons(&[num("1")]), err("`cons` requires exactly two arguments"));
}

#[test]
fn append_joins_two_lists() {
    assert_eq!(
        append(&[lst(vec![num("1")]), quoted(lst(vec![num("2"), num("3")]))]),
        Ok(lst(vec![num("1"), num("2"), num("3")]))
    );
    assert_eq!(append(&[lst(vec![]), lst(vec![])]), Ok(lst(vec![])));
    assert_eq!(append(&[num("1"), lst(vec![])]), err("expected a list"));
    assert_eq!(append(&[lst(vec![]), num("1")]), err("expected a list"));
    assert_eq!(append(&[lst(vec![])]), err("`append` requires exactly two arguments"));
}

#[test]
fn list_makes_a_list_of_its_arguments() {
    assert_eq!(list(&[]), Ok(lst(vec![])));
    assert_eq!(list(&[num("1"), Expression::Nil]), Ok(lst(vec![num("1"), Expression::Nil])));
}

#[test]
fn is_empty_knows_the_empty_values() {
    assert_eq!(is_empty(&[lst(vec![])]), Ok(Expression::Bool(true)));
    assert_eq!(is_empty(&[lst(vec![num("1")])]), Ok(Expression::Bool(false)));
    assert_eq!(is_empty(&[Expression::Nil]), Ok(Expression::Bool(true)));
    assert_eq!(is_empty(&[quoted(lst(vec![]))]), Ok(Expression::Bool(true)));
    assert_eq!(is_empty(&[quoted(Expression::Nil)]), Ok(Expression::Bool(true)));
    assert_eq!(is_empty(&[quoted(num("1"))]), Ok(Expression::Bool(false)));
    assert_eq!(is_empty(&[num("1")]), Ok(Expression::Bool(false)));
    assert_eq!(is_empty(&[]), Ok(Expression::Bool(false)));
    assert_eq!(is_empty(&[lst(vec![]), lst(vec![])]), Ok(Expression::Bool(false)));
}

#[test]
fn len_counts() {
    assert_eq!(len(&[lst(vec![num("1"), num("2"), num("3")])]), Ok(num("3")));
    assert_eq!(len(&[quoted(lst(vec![]))]), Ok(num("0")));
    assert_eq!(len(&[num("1"), num("2")]), Ok(num("2")));
    assert_eq!(len(&[]), Ok(num("0")));
    assert_eq!(len(&[num("1")]), err("expected a list"));
    let twelve: Vec<Expression> = (0..12).map(|_| Expression::Nil).collect();
    assert_eq!(len(&[lst(twelve)]), Ok(Expression::Number((12.0f64).to_string())));
}

#[test]
fn string_to_list_and_back() {
    assert_eq!(
        as_list(&[Expression::string("héy")]),
        Ok(lst(vec![Expression::string("h"), Expression::string("é"), Expression::string("y")]))
    );
    assert_eq!(as_list(&[Expression::string("")]), Ok(lst(vec![])));
    assert_eq!(as_list(&[num("1")]), err("`string->list` accepts a string"));
    assert_eq!(as_list(&[]), err("`string->list` requires one argument"));
    assert_eq!(
        from_list(&[lst(vec![Expression::string("a"), num("1"), Expression::Bool(true)])]),
        Ok(Expression::string("a1#t"))
    );
    assert_eq!(from_list(&[quoted(lst(vec![]))]), Ok(Expression::string("")));
    assert_eq!(from_list(&[num("1")]), err("expected a list"));
    assert_eq!(from_list(&[]), err("`list->string` requires one argument"));
}

#[test]
fn extract_list_copies_the_items() {
    assert_eq!(extract_list(&lst(vec![num("1")])), Ok(vec![num("1")]));
    assert_eq!(extract_list(&quoted(lst(vec![num("1")]))), Ok(vec![num("1")]));
    assert_eq!(extract_list(&num("1")), Err(String::from("expected a list")));
    assert_eq!(extract_list(&quoted(num("1"))), Err(String::from("expected a list")));
}

#[test]
fn format_prints_one_argument() {
    assert_eq!(primitives::format(&[num("1.5")]), Ok(Expression::string("1.5")));
    assert_eq!(primitives::format(&[Expression::string("{0}")]), Ok(Expression::string("{0}")));
    assert_eq!(primitives::format(&[]), err("format requires at least one argument"));
}

#[test]
fn format_fills_the_places_by_index() {
    assert_eq!(
        primitives::format(&[Expression::string("{0} and {1}, {0}"), num("1"), Expression::string("two")]),
        Ok(Expression::string("1 and two, 1"))
    );
    assert_eq!(
        primitives::format(&[Expression::string("[{0:>4}]"), Expression::string("ab")]),
        Ok(Expression::string("[  ab]"))
    );
    assert_eq!(
        primitives::format(&[Expression::string("{{}} {0}"), lst(vec![Expression::string("a"), num("2")])]),
        Ok(Expression::string("{} (a 2)"))
    );
    assert_eq!(primitives::format(&[num("1"), num("2")]), err("format string must begin with string"));
}

#[test]
fn format_hands_on_the_errors_of_the_formatter() {
    assert_eq!(
        primitives::format(&[Expression::string("{1}"), num("1")]),
        err("KeyError(Invalid key: 1)")
    );
    assert_eq!(
        primitives::format(&[Expression::string("{0"), num("1")]),
        err("Invalid(Expected '}' before end of string)")
    );
}

#[test]
fn format_prints_digits_as_they_stand() {
    assert_eq!(
        primitives::format(&[Expression::string("{0} 10000"), num("1")]),
        Ok(Expression::string("1 10000"))
    );
    assert_eq!(
        primitives::format(&[
            Expression::string("123456789012345678901234567890 {0} {{99999999999999999999}}"),
            num("1"),
        ]),
        Ok(Expression::string("123456789012345678901234567890 1 {99999999999999999999}"))
    );
}

#[test]
fn format_fills_wide_fields() {
    let wide = primitives::format(&[Expression::string("{0:99999}"), Expression::string("ab")]);
    match wide {
        Ok(Expression::String(text)) => {
            assert_eq!(text.len(), 99999);
            assert!(text.starts_with("ab "));
            assert!(text.ends_with(' '));
        }
        other => panic!("{other:?}"),
    }
    assert_eq!(
        primitives::format(&[Expression::string("{0:.2}"), Expression::string("abcdef")]),
        Ok(Expression::string("ab"))
    );
}

#[test]
fn format_refuses_what_no_string_can_hold() {
    assert_eq!(
        primitives::format(&[Expression::string("{0:9999999999999999999}"), num("1")]),
        err("formatted text too long")
    );
    assert_eq!(
        primitives::format(&[
            Expression::string("{0:2000000000000000000}{0:2000000000000000000}"),
            num("1"),
        ]),
        err("formatted text too long")
    );
    assert!(fits_in_a_string("{0:99999} {1}", 1000));
    assert!(fits_in_a_string("99999999999999999999999999", 0));
    assert!(fits_in_a_string("{99999999999999999999999999}", 0));
    assert!(fits_in_a_string("{{0:99999999999999999999999999}}", 0));
    assert!(!fits_in_a_string("{0:99999999999999999999999999}", 0));
    assert!(!fits_in_a_string("{0}", usize::MAX));
    assert!(fits_in_a_string("", 0));
}

#[test]
fn the_library_knows_which_primitives_are_its_own() {
    assert_eq!(builtin(Native::Not, &[Expression::Bool(true)]), Some(Ok(Expression::Bool(false))));
    assert_eq!(builtin(Native::List, &[]), Some(Ok(lst(vec![]))));
    assert_eq!(builtin(Native::Len, &[]), Some(Ok(num("0"))));
    assert_eq!(builtin(Native::Format, &[num("1")]), Some(Ok(Expression::string("1"))));
    assert_eq!(builtin(Native::Add, &[num("1"), num("2")]), None);
    assert_eq!(builtin(Native::Println, &[]), None);
    assert_eq!(builtin(Native::Eq, &[]), None);
    assert_eq!(builtin(Native::Exit, &[]), None);
}

#[test]
fn printed_forms() {
    assert_eq!(Expression::Bool(true).fmt_string(), "#t");
    assert_eq!(Expression::Bool(false).to_string(), "#f");
    assert_eq!(Expression::Nil.to_string(), "nil");
    assert_eq!(num("25").to_string(), "25");
    assert_eq!(Expression::symbol("std::math::+").to_string(), "std::math::+");
    assert_eq!(Expression::string("hi").fmt_string(), "hi");
    assert_eq!(Expression::string("hi").to_string(), "\"hi\"");
    assert_eq!(quoted(Expression::symbol("x")).to_string(), "'x");
    assert_eq!(lst(vec![]).to_string(), "()");
    assert_eq!(
        lst(vec![num("1"), Expression::string("a"), lst(vec![Expression::Nil])]).to_string(),
        "(1 \"a\" (nil))"
    );
    assert_eq!(
        lst(vec![num("1"), Expression::string("a"), quoted(Expression::string("b"))]).fmt_string(),
        "(1 a 'b)"
    );
    assert_eq!(Expression::Func(Native::Car).to_string(), "<fn>");
    let function = Expression::Function(Procedure {
        params: vec![],
        body: vec![],
        env: Environment::empty(),
    });
    assert_eq!(function.to_string(), "<fn>");
    assert_eq!(function.fmt_string(), "<fn>");
}

#[test]
fn constructors() {
    assert_eq!(Expression::symbol("s"), Expression::Symbol(String::from("s")));
    assert_eq!(Expression::string("s"), Expression::String(String::from("s")));
    assert_eq!(Expression::number("1"), Expression::Number(String::from("1")));
    assert_eq!(Expression::list(vec![Expression::Nil]), Expression::List(vec![Expression::Nil]));
}

#[test]
fn copies_are_deep() {
    let e = lst(vec![num("1"), quoted(lst(vec![Expression::string("x")]))]);
    assert_eq!(e.copy(), e);
    assert_eq!(e.clone(), e);
}
