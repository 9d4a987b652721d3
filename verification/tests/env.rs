use draca::env::Environment;
use draca::expression::{Expression, Native};
use draca::namespace::{Namespace, NamespaceItem};

fn num(text: &str) -> Expression {
    Expression::number(text)
}

#[test]
fn an_empty_environment_has_nothing() {
    let env = Environment::empty();
    assert_eq!(env.len(), 0);
    assert_eq!(env.scopes().len(), 0);
    assert_eq!(env.get("x"), None);
    assert_eq!(env.get_namespace_str("x"), None);
    assert!(env.values().is_empty());
    assert!(env.full_path_and_name().is_empty());
}

#[test]
fn insert_binds_and_overwrites() {
    let mut env = Environment::empty();
    env.insert("a::b::c", num("1"));
    assert_eq!(env.get("a::b::c"), Some(&num("1")));
    assert_eq!(env.len(), 1);
    env.insert("a::b::c", num("2"));
    assert_eq!(env.get("a::b::c"), Some(&num("2")));
    assert_eq!(env.len(), 1);
    env.insert_item(NamespaceItem::from_str("a::b::c"), num("3"));
    assert_eq!(env.get("a::b::c"), Some(&num("3")));
    assert_eq!(env.len(), 1);
}

#[test]
fn insert_leaves_other_bindings_alone() {
    let mut env = Environment::empty();
    env.insert("m", num("1"));
    env.insert("a", num("2"));
    env.insert("z", num("3"));
    env.insert("m", num("4"));
    assert_eq!(env.get("a"), Some(&num("2")));
    assert_eq!(env.get("m"), Some(&num("4")));
    assert_eq!(env.get("z"), Some(&num("3")));
    assert_eq!(env.get("b"), None);
}

#[test]
fn bindings_are_kept_in_the_order_of_their_keys() {
    let mut env = Environment::empty();
    for key in ["b::x", "a::y", "z", "a::x", "a::b::c", "b"] {
        env.insert(key, Expression::Nil);
    }
    let paths: Vec<String> = env.full_path_and_name().into_iter().map(|p| p.0).collect();
    assert_eq!(paths, ["::b", "::z", "a::x", "a::y", "a::b::c", "b::x"]);
    assert_eq!(env.values(), ["b", "z", "x", "y", "c", "x"]);
    let mut keys: Vec<NamespaceItem> =
        ["b::x", "a::y", "z", "a::x", "a::b::c", "b"].iter().map(|k| NamespaceItem::from_str(k)).collect();
    keys.sort();
    let sorted: Vec<String> = keys.iter().map(|k| k.to_string()).collect();
    assert_eq!(paths, sorted);
}

#[test]
fn an_exact_match_wins_over_the_scopes() {
    let mut env = Environment::empty().with_scope(Namespace::from_str("ns"));
    env.insert("ns::x", num("1"));
    env.insert("x", num("2"));
    assert_eq!(env.get("x"), Some(&num("2")));
    assert_eq!(env.get_namespace_str("x"), Some(String::from("x")));
}

#[test]
fn scopes_are_searched_in_the_order_of_registration() {
    let mut env = Environment::empty();
    env.add_scope(Namespace::from_str("std::math"));
    env.add_scope(Namespace::from_str("std::cmp"));
    env.insert("std::math::clash", num("1"));
    env.insert("std::cmp::clash", num("2"));
    env.insert("std::cmp::only", num("3"));
    assert_eq!(env.get("clash"), Some(&num("1")));
    assert_eq!(env.get("only"), Some(&num("3")));
    assert_eq!(env.get("missing"), None);
    assert_eq!(env.get_namespace_str("clash"), Some(String::from("std::math::clash")));
    assert_eq!(env.get_namespace_str("only"), Some(String::from("std::cmp::only")));
    assert!(env.contains("clash"));
    assert!(!env.contains("missing"));
}

#[test]
fn a_name_out_of_scope_does_not_resolve() {
    let mut env = Environment::empty();
    env.insert("hidden::x", num("1"));
    assert_eq!(env.get("x"), None);
    assert_eq!(env.get("hidden::x"), Some(&num("1")));
}

#[test]
fn the_name_of_a_binding_out_of_scope_is_not_found() {
    let mut env = Environment::empty();
    env.insert("b::x", num("1"));
    env.insert("a::x", num("2"));
    env.insert("a::y", num("3"));
    assert_eq!(env.get("x"), None);
    assert_eq!(env.get_namespace_str("x"), None);
    assert_eq!(env.get_namespace_str("a::x"), Some(String::from("a::x")));
    env.add_scope(Namespace::from_str("b"));
    assert_eq!(env.get_namespace_str("x"), Some(String::from("b::x")));
    assert_eq!(env.get_namespace_str("y"), None);
}

#[test]
fn a_name_has_a_qualified_name_exactly_if_it_resolves() {
    let mut env = Environment::empty().with_core();
    env.insert("hidden::x", num("1"));
    for name in ["+", "std::math::+", "x", "hidden::x", "pi", "consts::pi", "nothing", "", "::"] {
        assert_eq!(env.get_namespace_str(name).is_some(), env.get(name).is_some(), "{name}");
    }
}

#[test]
fn with_scope_and_add_scope_append() {
    let mut env = Environment::empty().with_scope(Namespace::from_str("a"));
    env.add_scope(Namespace::from_str("b::c"));
    let scopes: Vec<String> = env.scopes().iter().map(|s| s.to_string()).collect();
    assert_eq!(scopes, ["a", "b::c"]);
}

#[test]
fn a_clone_is_a_value_of_its_own() {
    let mut env = Environment::empty();
    env.insert("x", num("1"));
    let frozen = env.clone();
    env.insert("x", num("2"));
    env.add_scope(Namespace::from_str("later"));
    assert_eq!(frozen.get("x"), Some(&num("1")));
    assert_eq!(frozen.scopes().len(), 0);
    assert_eq!(env.get("x"), Some(&num("2")));
    assert_eq!(frozen.copy(), frozen);
}

#[test]
fn the_core_environment_has_the_primitives() {
    let env = Environment::empty().with_core().build();
    assert_eq!(env.get("not"), Some(&Expression::Func(Native::Not)));
    assert_eq!(env.get("+"), Some(&Expression::Func(Native::Add)));
    assert_eq!(env.get("std::math::+"), Some(&Expression::Func(Native::Add)));
    assert_eq!(env.get("/="), Some(&Expression::Func(Native::Ne)));
    assert_eq!(env.get("println"), Some(&Expression::Func(Native::Println)));
    assert_eq!(env.get("format"), Some(&Expression::Func(Native::Format)));
    assert_eq!(env.get("car"), Some(&Expression::Func(Native::Car)));
    assert_eq!(env.get("string->list"), Some(&Expression::Func(Native::AsList)));
    assert_eq!(env.get("pi"), Some(&num("3.141592653589793")));
    assert_eq!(env.get("e"), Some(&num("2.718281828459045")));
    assert_eq!(env.get("exit"), None);
    assert_eq!(env.get("std::sys::exit"), Some(&Expression::Func(Native::Exit)));
    let scopes: Vec<String> = env.scopes().iter().map(|s| s.to_string()).collect();
    assert_eq!(
        scopes,
        ["std::macros", "std::cmp", "std::math", "std::math::consts", "std::list", "std::string"]
    );
    assert_eq!(env.len(), 29);
}

#[test]
fn the_constants_are_the_floats() {
    assert_eq!(std::f64::consts::PI.to_string(), "3.141592653589793");
    assert_eq!(std::f64::consts::E.to_string(), "2.718281828459045");
}
