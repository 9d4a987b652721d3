use draca::env::Environment;
use draca::eval::{EvalError, Machine, Reply, Request, Status};
use draca::expression::{Expression, Native};
use draca::parser::parse;
use draca::semantics::Form;

fn number(x: f64) -> Expression {
    Expression::Number(x.to_string())
}

fn as_float(e: &Expression) -> Option<f64> {
    match e {
        Expression::Number(t) => t.parse::<f64>().ok(),
        _ => None,
    }
}

fn canonical(e: Expression) -> Expression {
    match e {
        Expression::Number(t) => match t.parse::<f64>() {
            Ok(x) => number(x),
            Err(_) => Expression::Symbol(t),
        },
        Expression::List(items) => Expression::List(items.into_iter().map(canonical).collect()),
        Expression::Quoted(inner) => Expression::Quoted(Box::new(canonical(*inner))),
        other => other,
    }
}

fn read(text: &str) -> Vec<Expression> {
    parse(text.trim()).expect("Could not parse text!!!").into_iter().map(canonical).collect()
}

fn fold(args: &[Expression], op: fn(f64, f64) -> f64) -> Result<Expression, String> {
    if args.len() < 2 {
        return Err(String::from("requires at least two arguments"));
    }
    let mut base = as_float(&args[0]).ok_or_else(|| String::from("Expected a number"))?;
    for arg in &args[1..] {
        base = op(base, as_float(arg).ok_or_else(|| String::from("Expected a number"))?);
    }
    Ok(number(base))
}

fn host(native: Native, args: &[Expression]) -> Result<Expression, String> {
    match native {
        Native::Add => fold(args, |a, b| a + b),
        Native::Sub => fold(args, |a, b| a - b),
        Native::Mul => fold(args, |a, b| a * b),
        Native::Div => fold(args, |a, b| a / b),
        Native::Eq => match args {
            [a, b] => Ok(Expression::Bool(match (as_float(a), as_float(b)) {
                (Some(x), Some(y)) => x == y,
                _ => a == b,
            })),
            _ => Err(String::from("`=` requires two arguments")),
        },
        Native::Lt => match args {
            [a, b] => Ok(Expression::Bool(as_float(a) < as_float(b))),
            _ => Err(String::from("`<` requires two arguments")),
        },
        Native::Panic => Err(String::from("panicked")),
        _ => Err(String::from("not available in this host")),
    }
}

fn serve(request: &Request) -> Reply {
    match request {
        Request::Call(native, args) => match host(*native, args) {
            Ok(value) => Reply::Value(value),
            Err(message) => Reply::Failure(message),
        },
        Request::Load(_) => Reply::Forms(read("(define loaded 7) loaded")),
        Request::Print(_) => Reply::Printed,
    }
}

fn eval(expr: Expression, env: &mut Environment) -> Result<Expression, EvalError> {
    draca::eval::eval(expr, env, serve, 1_000_000)
}

fn drive(expr: Expression, env: &mut Environment) -> Result<Expression, EvalError> {
    let taken = std::mem::replace(env, Environment::empty());
    let mut machine = Machine::new(taken, expr);
    loop {
        machine.run(100_000);
        match machine.status() {
            Status::Done => break,
            Status::Running => {}
            Status::Waiting => {
                let reply = machine.request().map(serve).unwrap();
                machine.reply(reply);
            }
        }
    }
    let (result, after) = machine.finish();
    *env = after;
    result
}

fn run(text: &str, env: &mut Environment) -> Result<Expression, EvalError> {
    let mut last = Ok(Expression::Nil);
    for form in read(text) {
        last = eval(form, env);
        if last.is_err() {
            break;
        }
    }
    last
}

fn fresh() -> Environment {
    Environment::empty().with_core().build()
}

#[test]
fn quote_returns_its_argument_unevaluated() {
    let mut env = fresh();
    assert_eq!(
        run("(quote (frobnicate (if) undefined))", &mut env),
        Ok(read("(frobnicate (if) undefined)").remove(0))
    );
    assert_eq!(run("(quote x)", &mut env), Ok(Expression::symbol("x")));
}

#[test]
fn if_evaluates_only_the_taken_branch() {
    let mut env = fresh();
    assert_eq!(run("(if #t 1 (panic \"no\"))", &mut env), Ok(number(1.0)));
    assert_eq!(run("(if #f (panic \"no\") 2)", &mut env), Ok(number(2.0)));
    assert_eq!(run("(if #f (undefined-thing) 2)", &mut env), Ok(number(2.0)));
}

#[test]
fn if_refuses_a_condition_that_is_no_boolean() {
    let mut env = fresh();
    assert_eq!(run("(if 1 2 3)", &mut env), Err(EvalError::InvalidCondition));
    assert_eq!(run("(if #t 2)", &mut env), Err(EvalError::InvalidSpecialForm(Form::If)));
}

#[test]
fn closures_capture_by_value() {
    let mut env = fresh();
    assert_eq!(run("(define x 1) (define (f) x) (define x 2) (f)", &mut env), Ok(number(1.0)));
    assert_eq!(run("x", &mut env), Ok(number(2.0)));
}

#[test]
fn first_registered_scope_wins() {
    let mut env = Environment::empty();
    env.add_scope(draca::namespace::Namespace::from_str("std::math"));
    env.add_scope(draca::namespace::Namespace::from_str("std::cmp"));
    env.insert("std::cmp::clash", number(2.0));
    env.insert("std::math::clash", number(1.0));
    assert_eq!(env.get("clash"), Some(&number(1.0)));
    assert_eq!(env.get("std::cmp::clash"), Some(&number(2.0)));
    assert_eq!(env.get_namespace_str("clash"), Some(String::from("std::math::clash")));
}

#[test]
fn define_square_and_call_it() {
    let mut env = fresh();
    assert_eq!(run("(define (square x) (* x x))", &mut env), Ok(Expression::symbol("square")));
    assert_eq!(run("(square 5)", &mut env), Ok(number(25.0)));
}

#[test]
fn let_binds_simultaneously() {
    let mut env = fresh();
    assert_eq!(run("(let ((a 1) (b 2)) (+ a b))", &mut env), Ok(number(3.0)));
    assert_eq!(
        run("(let ((a 1) (b a)) b)", &mut env),
        Err(EvalError::UndefinedSymbol(String::from("a")))
    );
    assert_eq!(run("(let ((a 1)))", &mut env), Err(EvalError::InvalidSpecialForm(Form::Let)));
}

#[test]
fn let_bindings_do_not_leak() {
    let mut env = fresh();
    assert_eq!(run("(let ((a 1)) a)", &mut env), Ok(number(1.0)));
    assert_eq!(run("a", &mut env), Err(EvalError::UndefinedSymbol(String::from("a"))));
}

#[test]
fn undefined_function_is_reported_by_name() {
    let mut env = fresh();
    assert_eq!(
        run("(frobnicate 1 2)", &mut env),
        Err(EvalError::UndefinedFunction(String::from("frobnicate")))
    );
    assert_eq!(
        EvalError::UndefinedFunction(String::from("frobnicate")).message(),
        "Undefined function: frobnicate"
    );
}

#[test]
fn undefined_symbol_is_reported_by_name() {
    let mut env = fresh();
    assert_eq!(run("nothing", &mut env), Err(EvalError::UndefinedSymbol(String::from("nothing"))));
}

#[test]
fn a_list_needs_a_symbol_as_head() {
    let mut env = fresh();
    assert_eq!(run("(1 2)", &mut env), Err(EvalError::InvalidForm));
    assert_eq!(run("()", &mut env), Err(EvalError::InvalidForm));
}

#[test]
fn self_evaluating_forms() {
    let mut env = fresh();
    assert_eq!(run("(quote 1)", &mut env), Ok(number(1.0)));
    assert_eq!(eval(Expression::Bool(true), &mut env), Ok(Expression::Bool(true)));
    assert_eq!(eval(Expression::Nil, &mut env), Ok(Expression::Nil));
    assert_eq!(eval(Expression::string("s"), &mut env), Ok(Expression::string("s")));
    assert_eq!(eval(number(2.5), &mut env), Ok(number(2.5)));
    assert_eq!(
        eval(Expression::Quoted(Box::new(Expression::symbol("q"))), &mut env),
        Ok(Expression::Quoted(Box::new(Expression::symbol("q"))))
    );
    assert_eq!(eval(Expression::Func(Native::Car), &mut env), Ok(Expression::Func(Native::Car)));
}

#[test]
fn lambda_makes_a_function_and_binds_nothing() {
    let mut env = fresh();
    let before = env.clone();
    let value = run("(lambda (x) x)", &mut env).unwrap();
    assert!(matches!(value, Expression::Function(_)));
    assert_eq!(env, before);
    assert_eq!(run("(lambda (1) x)", &mut env), Err(EvalError::InvalidParameter));
    assert_eq!(run("(lambda x x)", &mut env), Err(EvalError::InvalidSpecialForm(Form::Lambda)));
    assert_eq!(run("(lambda (x))", &mut env), Err(EvalError::InvalidSpecialForm(Form::Lambda)));
}

#[test]
fn define_with_lambda_matches_the_sugar() {
    let mut one = fresh();
    let mut two = fresh();
    run("(define (twice x) (+ x x))", &mut one).unwrap();
    run("(define twice (lambda (x) (+ x x)))", &mut two).unwrap();
    assert_eq!(one, two);
    assert_eq!(run("(twice 4)", &mut one), Ok(number(8.0)));
}

#[test]
fn recursion_by_self_reference() {
    let mut env = fresh();
    run("(define (count n) (if (= n 0) 0 (+ 1 (count (- n 1)))))", &mut env).unwrap();
    assert_eq!(run("(count 5)", &mut env), Ok(number(5.0)));
}

#[test]
fn calls_are_permissive_about_arity() {
    let mut env = fresh();
    run("(define (first a b) a)", &mut env).unwrap();
    assert_eq!(run("(first 1 2 3)", &mut env), Ok(number(1.0)));
    assert_eq!(run("(first 1)", &mut env), Ok(number(1.0)));
    run("(define (second a b) b)", &mut env).unwrap();
    assert_eq!(run("(second 1)", &mut env), Err(EvalError::UndefinedSymbol(String::from("b"))));
}

#[test]
fn arguments_are_evaluated_left_to_right() {
    let mut env = fresh();
    assert_eq!(
        run("(list (define a 1) (define a 2) a)", &mut env),
        Ok(Expression::List(vec![Expression::symbol("a"), Expression::symbol("a"), number(2.0)]))
    );
}

#[test]
fn define_in_namespace_binds_the_qualified_name() {
    let mut env = fresh();
    assert_eq!(
        run("(define/in-namespace geo (define tau 6))", &mut env),
        Ok(Expression::symbol("geo::tau"))
    );
    assert_eq!(run("geo::tau", &mut env), Ok(number(6.0)));
    assert_eq!(run("tau", &mut env), Err(EvalError::UndefinedSymbol(String::from("tau"))));
    assert_eq!(run("(require geo) tau", &mut env), Ok(number(6.0)));
    assert_eq!(
        run("(define/in-namespace geo (define (double x) (+ x x)))", &mut env),
        Ok(Expression::symbol("geo::double"))
    );
    assert_eq!(run("(double 4)", &mut env), Ok(number(8.0)));
    assert_eq!(
        run("(define/in-namespace geo (quote x))", &mut env),
        Err(EvalError::InvalidSpecialForm(Form::DefineInNamespace))
    );
}

#[test]
fn define_in_namespace_leaves_the_scopes_alone() {
    let mut env = Environment::empty();
    run("(define/in-namespace geo (define tau 6))", &mut env).unwrap();
    assert_eq!(env.scopes().len(), 0);
    assert_eq!(env.len(), 1);
}

#[test]
fn namespace_symbol_resolves_names() {
    let mut env = fresh();
    assert_eq!(run("(namespace/symbol +)", &mut env), Ok(Expression::symbol("std::math::+")));
    assert_eq!(
        run("(namespace/symbol std::math::+)", &mut env),
        Ok(Expression::symbol("std::math::+"))
    );
    assert_eq!(run("(namespace/symbol nothing)", &mut env), Ok(Expression::Bool(false)));
    assert_eq!(run("(namespace/symbol (quote pi))", &mut env), Ok(Expression::symbol("std::math::consts::pi")));
    assert_eq!(run("(namespace/symbol 1)", &mut env), Ok(Expression::Bool(false)));
}

#[test]
fn namespace_as_list_gives_the_search_path() {
    let mut env = Environment::empty();
    run("(require a::b) (require c)", &mut env).unwrap();
    assert_eq!(
        run("(namespace/as-list)", &mut env),
        Ok(Expression::List(vec![Expression::symbol("a::b"), Expression::symbol("c")]))
    );
}

#[test]
fn require_appends_a_scope() {
    let mut env = Environment::empty();
    assert_eq!(run("(require std::math)", &mut env), Ok(Expression::Bool(true)));
    assert_eq!(env.scopes().len(), 1);
    assert_eq!(env.scopes()[0].to_string(), "std::math");
    assert_eq!(run("(require 1)", &mut env), Err(EvalError::InvalidSpecialForm(Form::Require)));
}

#[test]
fn eval_file_runs_the_forms_of_the_host() {
    let mut env = fresh();
    assert_eq!(run("(eval-file somewhere)", &mut env), Ok(number(7.0)));
    assert_eq!(run("loaded", &mut env), Ok(number(7.0)));
}

#[test]
fn deconst_fn_asks_for_a_line() {
    let env = fresh();
    let mut machine = Machine::new(env, read("(deconst-fn pi)").remove(0));
    machine.run(10);
    assert_eq!(machine.status(), Status::Waiting);
    assert_eq!(machine.request(), Some(&Request::Print(String::from("3.141592653589793"))));
    machine.reply(Reply::Printed);
    machine.run(10);
    let (result, _) = machine.finish();
    assert_eq!(result, Ok(Expression::Bool(true)));
}

#[test]
fn a_failed_primitive_fails_the_evaluation() {
    let mut env = fresh();
    assert_eq!(
        run("(not 1)", &mut env),
        Err(EvalError::Primitive(String::from("`not` expects either a `nil` or a `bool`")))
    );
    assert_eq!(
        run("(+ 1 #t)", &mut env),
        Err(EvalError::Primitive(String::from("Expected a number")))
    );
}

#[test]
fn an_error_inside_a_call_keeps_the_outer_environment() {
    let mut env = fresh();
    run("(define (bad) (define inner 1) (frobnicate))", &mut env).unwrap();
    let before = env.clone();
    assert_eq!(run("(bad)", &mut env), Err(EvalError::UndefinedFunction(String::from("frobnicate"))));
    assert_eq!(env, before);
}

#[test]
fn an_unfinished_machine_says_so() {
    let env = fresh();
    let before = env.clone();
    let mut machine = Machine::new(env, read("(let ((a 1)) (+ a a))").remove(0));
    assert_eq!(machine.run(4), 4);
    assert_eq!(machine.status(), Status::Running);
    let (result, after) = machine.finish();
    assert_eq!(result, Err(EvalError::Unfinished));
    assert_eq!(after, before);
}

#[test]
fn a_reply_that_does_not_fit_is_ignored() {
    let env = fresh();
    let mut machine = Machine::new(env, read("(+ 1 2)").remove(0));
    machine.run(100);
    assert_eq!(
        machine.request(),
        Some(&Request::Call(Native::Add, vec![number(1.0), number(2.0)]))
    );
    machine.reply(Reply::Printed);
    assert_eq!(machine.status(), Status::Waiting);
    machine.reply(Reply::Value(number(3.0)));
    machine.run(100);
    assert_eq!(machine.finish().0, Ok(number(3.0)));
}

#[test]
fn a_function_value_is_no_expression() {
    let mut env = fresh();
    let function = run("(lambda (x) x)", &mut env).unwrap();
    assert_eq!(eval(function, &mut env), Err(EvalError::UnexpectedFunction));
}

#[test]
fn calling_a_value_that_is_no_function_fails() {
    let mut env = fresh();
    assert_eq!(run("(pi 1)", &mut env), Err(EvalError::UndefinedFunction(String::from("pi"))));
}

#[test]
fn a_file_that_is_no_program_fails_the_evaluation() {
    let env = fresh();
    let mut machine = Machine::new(env, read("(eval-file broken)").remove(0));
    machine.run(10);
    assert_eq!(machine.request(), Some(&Request::Load(String::from("broken"))));
    machine.reply(Reply::Failure(String::from("a `)` closes nothing")));
    assert_eq!(machine.status(), Status::Done);
    assert_eq!(
        machine.finish().0,
        Err(EvalError::ParseFailure(String::from("a `)` closes nothing")))
    );
}

#[test]
fn an_empty_file_has_the_value_true() {
    let env = fresh();
    let mut machine = Machine::new(env, read("(eval-file empty)").remove(0));
    machine.run(10);
    machine.reply(Reply::Forms(vec![]));
    machine.run(10);
    assert_eq!(machine.finish().0, Ok(Expression::Bool(true)));
}

#[test]
fn errors_in_words() {
    let name = || String::from("x");
    assert_eq!(EvalError::UndefinedSymbol(name()).message(), "Undefined symbol: x");
    assert_eq!(EvalError::UndefinedFunction(name()).message(), "Undefined function: x");
    assert_eq!(EvalError::InvalidForm.message(), "Expected a symbol");
    assert_eq!(EvalError::UnexpectedFunction.message(), "Unexpected function definition");
    assert_eq!(
        EvalError::InvalidSpecialForm(Form::DefineInNamespace).message(),
        "Invalid form of `define/in-namespace`"
    );
    assert_eq!(EvalError::InvalidParameter.message(), "Invalid parameter name");
    assert_eq!(EvalError::InvalidCondition.message(), "Invalid condition in if expression");
    assert_eq!(EvalError::NoBinding(name()).message(), "Inner define made no binding for x");
    assert_eq!(EvalError::Primitive(name()).message(), "x");
    assert_eq!(EvalError::ParseFailure(name()).message(), "Parsing failed: x");
    assert_eq!(EvalError::Unfinished.message(), "Evaluation was not finished");
}

#[test]
fn keywords_have_their_names() {
    use_all_forms();
}

fn use_all_forms() {
    let forms = [
        (Form::Define, "define"),
        (Form::DefineInNamespace, "define/in-namespace"),
        (Form::NamespaceSymbol, "namespace/symbol"),
        (Form::NamespaceAsList, "namespace/as-list"),
        (Form::Quote, "quote"),
        (Form::EvalFile, "eval-file"),
        (Form::Require, "require"),
        (Form::DeconstFn, "deconst-fn"),
        (Form::If, "if"),
        (Form::Let, "let"),
        (Form::Lambda, "lambda"),
    ];
    for (form, name) in forms {
        assert_eq!(form.keyword(), name);
        assert_eq!(draca::eval::parse_keyword(name), Some(form));
    }
    assert_eq!(draca::eval::parse_keyword("defined"), None);
    assert_eq!(draca::eval::parse_keyword(""), None);
}

#[test]
fn every_special_form_checks_its_shape() {
    let mut env = fresh();
    let cases = [
        ("(define x)", Form::Define),
        ("(define 1 2)", Form::Define),
        ("(define () 2)", Form::Define),
        ("(define (1) 2)", Form::Define),
        ("(define/in-namespace a)", Form::DefineInNamespace),
        ("(define/in-namespace a 1)", Form::DefineInNamespace),
        ("(define/in-namespace 1 (define x 1))", Form::DefineInNamespace),
        ("(define/in-namespace a (define 1 1))", Form::DefineInNamespace),
        ("(define/in-namespace a (define))", Form::DefineInNamespace),
        ("(namespace/symbol)", Form::NamespaceSymbol),
        ("(quote)", Form::Quote),
        ("(eval-file)", Form::EvalFile),
        ("(eval-file a b)", Form::EvalFile),
        ("(eval-file 1)", Form::EvalFile),
        ("(require)", Form::Require),
        ("(deconst-fn)", Form::DeconstFn),
        ("(deconst-fn 1)", Form::DeconstFn),
        ("(if)", Form::If),
        ("(if #t 1 2 3)", Form::If),
        ("(let)", Form::Let),
        ("(let x 1)", Form::Let),
        ("(let (x) 1)", Form::Let),
        ("(let ((x)) 1)", Form::Let),
        ("(let ((1 2)) 1)", Form::Let),
        ("(let ((x 1 2)) 1)", Form::Let),
        ("(lambda)", Form::Lambda),
    ];
    for (text, form) in cases {
        assert_eq!(run(text, &mut env), Err(EvalError::InvalidSpecialForm(form)), "{text}");
    }
    assert_eq!(
        run("(define/in-namespace a (define x))", &mut env),
        Err(EvalError::InvalidSpecialForm(Form::Define))
    );
    assert_eq!(run("(define (f 1) 2)", &mut env), Err(EvalError::InvalidParameter));
    assert_eq!(
        run("(deconst-fn nothing)", &mut env),
        Err(EvalError::UndefinedSymbol(String::from("nothing")))
    );
}

#[test]
fn a_let_value_may_define_in_the_outer_environment_only() {
    let mut env = fresh();
    assert_eq!(
        run("(let ((a (define z 1))) z)", &mut env),
        Err(EvalError::UndefinedSymbol(String::from("z")))
    );
    assert_eq!(run("z", &mut env), Ok(number(1.0)));
}

#[test]
fn steps_can_be_taken_one_by_one() {
    let env = fresh();
    let mut machine = Machine::new(env, read("(if #t 1 2)").remove(0));
    let mut steps = 0;
    while machine.status() == Status::Running {
        machine.step();
        steps += 1;
    }
    assert_eq!(steps, 5);
    machine.step();
    assert_eq!(machine.status(), Status::Done);
    assert_eq!(machine.env().len(), 29);
    assert_eq!(machine.finish().0, Ok(number(1.0)));
}

#[test]
fn driving_by_hand_gives_what_eval_gives() {
    let programs = [
        "(define (square x) (* x x)) (square 5)",
        "(let ((a 1) (b 2)) (+ a b))",
        "(define/in-namespace geo (define (double x) (+ x x))) (geo::double 4)",
        "(if (= 1 1) (list 1 2) (frobnicate))",
        "(frobnicate 1 2)",
        "(eval-file anything)",
    ];
    for program in programs {
        let (mut one, mut two) = (fresh(), fresh());
        let mut by_eval = Ok(Expression::Nil);
        let mut by_hand = Ok(Expression::Nil);
        for form in read(program) {
            by_eval = eval(form.copy(), &mut one);
            by_hand = drive(form, &mut two);
        }
        assert_eq!(by_eval, by_hand, "{program}");
        assert_eq!(one, two, "{program}");
    }
}

#[test]
fn an_evaluation_that_takes_too_long_is_given_up() {
    let mut env = fresh();
    run("(define (forever) (forever))", &mut env).unwrap();
    let before = env.clone();
    let call = read("(forever)").remove(0);
    assert_eq!(draca::eval::eval(call, &mut env, serve, 1000), Err(EvalError::Unfinished));
    assert_eq!(env, before);
}
