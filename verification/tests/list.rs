use draca::env::Environment;
use draca::eval::{eval, Reply, Request};
use draca::expression::Expression;
use draca::interp::Namespace;
use draca::parser::parse;
use draca::primitives;

fn never(_request: &Request) -> Reply {
    panic!("the list primitives need no host")
}

fn standard() -> Environment {
    Environment::empty().with_core().build()
}

fn lisp(code: &str, env: &mut Environment) -> Expression {
    let ast = parse(code.trim()).expect("Could not parse text!!!");
    eval(ast.first().unwrap().clone(), env, never, 1_000_000).expect("Could not eval!!!")
}

#[test]
fn car() {
    let mut env = standard();
    let list = lisp("(list 1 2 3)", &mut env);

    assert_eq!(primitives::car(&[list]).unwrap(), Expression::Number((1.0f64).to_string()));
}

#[test]
fn cdr() {
    let mut env = standard();
    let list = lisp("(list 1 2 3)", &mut env);

    assert_eq!(primitives::cdr(&[list]).unwrap(), lisp("(list 2 3)", &mut env));
}

#[test]
fn every_namespace_lies_in_every_other() {
    let a = Namespace { path: vec![String::from("std")] };
    let b = Namespace { path: vec![] };
    assert!(a.in_namespace(&b));
    assert!(b.in_namespace(&a));
    assert!(a.in_namespace(&a));
}
