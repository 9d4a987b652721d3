//! What holds of every evaluation, stated over the transition function of
//! [`crate::semantics`] and proved from its definition.

use crate::env::Scope;
use crate::eval::{driven, lemma_driven_chain, lemma_driven_step, Reply, Request};
use crate::frames::{lemma_run_under, settled, under};
use crate::expression::{Closure, Value};
use crate::namespace::Path;
use crate::semantics::{
    bind_next, bind_params, eval_lambda, fail, go, invoke, keyword, lambda_form, name_of, resume,
    ret, unwind, Context, Failure, Form, Phase, State,
};
use crate::text::split_path;
use vstd::prelude::*;

verus! {

/// Each keyword names its own special form.
pub proof fn lemma_keywords()
    ensures
        keyword("define"@) == Some(Form::Define),
        keyword("define/in-namespace"@) == Some(Form::DefineInNamespace),
        keyword("namespace/symbol"@) == Some(Form::NamespaceSymbol),
        keyword("namespace/as-list"@) == Some(Form::NamespaceAsList),
        keyword("quote"@) == Some(Form::Quote),
        keyword("eval-file"@) == Some(Form::EvalFile),
        keyword("require"@) == Some(Form::Require),
        keyword("deconst-fn"@) == Some(Form::DeconstFn),
        keyword("if"@) == Some(Form::If),
        keyword("let"@) == Some(Form::Let),
        keyword("lambda"@) == Some(Form::Lambda),
{
    reveal_strlit("define");
    reveal_strlit("define/in-namespace");
    reveal_strlit("namespace/symbol");
    reveal_strlit("namespace/as-list");
    reveal_strlit("quote");
    reveal_strlit("eval-file");
    reveal_strlit("require");
    reveal_strlit("deconst-fn");
    reveal_strlit("if");
    reveal_strlit("let");
    reveal_strlit("lambda");
    assert("define"@.len() == 6 && "define"@[0] == 'd');
    assert("define/in-namespace"@.len() == 19);
    assert("namespace/symbol"@.len() == 16);
    assert("namespace/as-list"@.len() == 17);
    assert("quote"@.len() == 5);
    assert("eval-file"@.len() == 9);
    assert("require"@.len() == 7);
    assert("deconst-fn"@.len() == 10);
    assert("if"@.len() == 2);
    assert("let"@.len() == 3);
    assert("lambda"@.len() == 6 && "lambda"@[0] == 'l');
}

/// The form `(quote x)`.
pub open spec fn quote_form(x: Value) -> Value {
    Value::List(seq![Value::Symbol("quote"@), x])
}

/// The form `(if cond then otherwise)`.
pub open spec fn if_form(cond: Value, then: Value, otherwise: Value) -> Value {
    Value::List(seq![Value::Symbol("if"@), cond, then, otherwise])
}

/// `(quote x)` gives `x` itself, whatever `x` is: nothing in `x` is looked
/// up or evaluated, and the environment stays as it is.
pub proof fn lemma_quote_returns_argument(env: Scope, stack: Seq<Context>, x: Value)
    ensures
        go(env, stack, quote_form(x)).step() == ret(env, stack, x),
        State::start(env, quote_form(x)).steps(2) == (State {
            control: Phase::Done(Ok(x)),
            env,
            stack: Seq::empty(),
        }),
{
    lemma_keywords();
    reveal_with_fuel(State::steps, 3);
}

/// `(if #t a b)` goes on as the evaluation of `a` alone, and
/// `(if #f a b)` as that of `b` alone: after three transitions the machine
/// is about to evaluate the branch taken, in the same environment and with
/// the same contexts waiting, and the other branch is gone from the state.
pub proof fn lemma_if_takes_one_branch(env: Scope, stack: Seq<Context>, a: Value, b: Value)
    ensures
        go(env, stack, if_form(Value::Bool(true), a, b)).steps(3) == go(env, stack, a),
        go(env, stack, if_form(Value::Bool(false), a, b)).steps(3) == go(env, stack, b),
{
    lemma_keywords();
    reveal_with_fuel(State::steps, 4);
    let waiting = stack.push(Context::Branch { then: a, otherwise: b });
    assert(waiting.drop_last() =~= stack);
    assert(go(env, stack, if_form(Value::Bool(true), a, b)).step() == go(
        env,
        waiting,
        Value::Bool(true),
    ));
    assert(go(env, waiting, Value::Bool(true)).step() == ret(env, waiting, Value::Bool(true)));
    assert(ret(env, waiting, Value::Bool(true)).step() == go(env, stack, a));
    assert(go(env, stack, if_form(Value::Bool(false), a, b)).step() == go(
        env,
        waiting,
        Value::Bool(false),
    ));
    assert(go(env, waiting, Value::Bool(false)).step() == ret(env, waiting, Value::Bool(false)));
    assert(ret(env, waiting, Value::Bool(false)).step() == go(env, stack, b));
}

/// A condition that is no boolean fails the `if`: there is no coercion to
/// a truth value.
pub proof fn lemma_if_needs_a_boolean(
    env: Scope,
    stack: Seq<Context>,
    a: Value,
    b: Value,
    v: Value,
)
    requires
        !(v is Bool),
    ensures
        resume(env, stack, Context::Branch { then: a, otherwise: b }, v) == fail(
            env,
            stack,
            Failure::InvalidCondition,
        ),
{
}

/// A call whose head is no keyword and resolves to nothing fails with the
/// head's name, before any argument is evaluated.
pub proof fn lemma_undefined_function(
    env: Scope,
    stack: Seq<Context>,
    name: Seq<char>,
    args: Seq<Value>,
)
    requires
        keyword(name) is None,
        env.get(name) is None,
    ensures
        go(env, stack, Value::List(seq![Value::Symbol(name)] + args)).step() == fail(
            env,
            stack,
            Failure::UndefinedFunction(name),
        ),
        State::start(env, Value::List(seq![Value::Symbol(name)] + args)).step() == (State {
            control: Phase::Done(Err(Failure::UndefinedFunction(name))),
            env,
            stack: Seq::empty(),
        }),
{
    let items = seq![Value::Symbol(name)] + args;
    assert(items[0] == Value::Symbol(name));
}

/// A symbol that resolves to nothing fails with its name.
pub proof fn lemma_undefined_symbol(env: Scope, stack: Seq<Context>, name: Seq<char>)
    requires
        env.get(name) is None,
    ensures
        go(env, stack, Value::Symbol(name)).step() == fail(
            env,
            stack,
            Failure::UndefinedSymbol(name),
        ),
{
}

/// Booleans, numbers, strings, the empty value, quoted forms and
/// primitives evaluate to themselves.
pub proof fn lemma_self_evaluating(env: Scope, stack: Seq<Context>, v: Value)
    requires
        v is Bool || v is Number || v is Str || v is Nil || v is Quoted || v is Func,
    ensures
        go(env, stack, v).step() == ret(env, stack, v),
{
}

/// The form `(define target rest…)`.
pub open spec fn define_form(target: Value, rest: Seq<Value>) -> Value {
    Value::List(seq![Value::Symbol("define"@), target] + rest)
}

/// `(define (name p…) body…)` stands for
/// `(define name (lambda (p…) body…))`: after one transition both are in
/// the same state.
pub proof fn lemma_define_is_sugar(
    env: Scope,
    stack: Seq<Context>,
    name: Seq<char>,
    params: Seq<Value>,
    body: Seq<Value>,
)
    requires
        body.len() > 0,
    ensures
        go(
            env,
            stack,
            define_form(Value::List(seq![Value::Symbol(name)] + params), body),
        ).step() == go(
            env,
            stack,
            define_form(Value::Symbol(name), seq![lambda_form(params, body)]),
        ).step(),
{
    lemma_keywords();
    let head = seq![Value::Symbol(name)] + params;
    let sugar = seq![Value::Symbol("define"@), Value::List(head)] + body;
    let plain = seq![Value::Symbol("define"@), Value::Symbol(name)] + seq![
        lambda_form(params, body),
    ];
    assert(sugar[0] == Value::Symbol("define"@));
    assert(sugar[1] == Value::List(head));
    assert(head[0] == Value::Symbol(name));
    assert(head.skip(1) =~= params);
    assert(sugar.skip(2) =~= body);
    assert(plain[0] == Value::Symbol("define"@));
    assert(plain[1] == Value::Symbol(name));
    assert(plain[2] == lambda_form(params, body));
}

/// When the value of a definition is there, the name is bound to it in the
/// current environment, in place of what it was bound to, and the value of
/// the form is the name.
pub proof fn lemma_define_binds(env: Scope, stack: Seq<Context>, name: Seq<char>, v: Value)
    requires
        env.wf(),
    ensures
        resume(env, stack, Context::Define { name }, v) == ret(
            env.insert(Path::parse(name), v),
            stack,
            Value::Symbol(name),
        ),
        resume(env, stack, Context::Define { name }, v).env.lookup(Path::parse(name)) == Some(v),
        resume(env, stack, Context::Define { name }, v).env.get(name) == Some(v),
{
    crate::env::lemma_insert_lookup(env, Path::parse(name), v, Path::parse(name));
}

/// `(require ns)` adds `ns` at the end of the search path, binds nothing,
/// and has the value `#t`.
pub proof fn lemma_require_appends(env: Scope, stack: Seq<Context>, ns: Seq<char>)
    ensures
        go(env, stack, Value::List(seq![Value::Symbol("require"@), Value::Symbol(ns)])).step()
            == ret(env.add_scope(split_path(ns)), stack, Value::Bool(true)),
        env.add_scope(split_path(ns)).bindings == env.bindings,
        env.add_scope(split_path(ns)).scopes == env.scopes.push(split_path(ns)),
{
    lemma_keywords();
}

/// When the inner definition of a `define/in-namespace` is done, the outer
/// environment gets the one binding that was made under the qualified name
/// and is otherwise as it was: the namespace that the inner definition
/// ran in does not stay in scope, and nothing else that the inner
/// environment holds is carried over.
pub proof fn lemma_namespaced_define_exports_one_binding(
    inner: Scope,
    outer: Scope,
    stack: Seq<Context>,
    name: Seq<char>,
    v: Value,
    other: Path,
)
    requires
        outer.wf(),
        inner.get(name) is Some,
    ensures
        resume(inner, stack, Context::Export { outer, name }, v) == ret(
            outer.insert(Path::parse(name), inner.get(name)->0),
            stack,
            Value::Symbol(name),
        ),
        resume(inner, stack, Context::Export { outer, name }, v).env.scopes == outer.scopes,
        other != Path::parse(name) ==> resume(
            inner,
            stack,
            Context::Export { outer, name },
            v,
        ).env.lookup(other) == outer.lookup(other),
{
    crate::env::lemma_insert_lookup(outer, Path::parse(name), inner.get(name)->0, other);
}

/// A `lambda` captures the environment as it is when the function is made,
/// and binds nothing.
pub proof fn lemma_lambda_captures(
    env: Scope,
    stack: Seq<Context>,
    params: Seq<Value>,
    body: Seq<Value>,
)
    requires
        forall|i: int| 0 <= i < params.len() ==> (#[trigger] params[i]) is Symbol,
        body.len() > 0,
    ensures
        eval_lambda(env, stack, seq![Value::Symbol("lambda"@), Value::List(params)] + body) == ret(
            env,
            stack,
            Value::Function(Closure { params, body, env }),
        ),
{
    let items = seq![Value::Symbol("lambda"@), Value::List(params)] + body;
    assert(items[1] == Value::List(params));
    assert(items.skip(2) =~= body);
}

/// A user-defined function sees the environment that it captured, not the
/// caller's: called from two different environments on the same arguments,
/// it runs the same body in the same local environment. The caller's
/// environment is only what the machine goes back to afterwards.
pub proof fn lemma_call_ignores_the_callers_environment(
    one: Scope,
    two: Scope,
    stack: Seq<Context>,
    c: Closure,
    name: Seq<char>,
    args: Seq<Value>,
)
    requires
        c.body.len() > 0,
    ensures
        invoke(one, stack, Value::Function(c), name, args).control == invoke(
            two,
            stack,
            Value::Function(c),
            name,
            args,
        ).control,
        invoke(one, stack, Value::Function(c), name, args).control is Eval ==> invoke(
            one,
            stack,
            Value::Function(c),
            name,
            args,
        ).env == invoke(two, stack, Value::Function(c), name, args).env,
{
}

/// Every value of a `let` binding is evaluated in the environment outside
/// the `let`, whatever bindings were made before it: the bindings are
/// simultaneous, not sequential.
pub proof fn lemma_let_values_see_the_outer_environment(
    env: Scope,
    stack: Seq<Context>,
    local: Scope,
    bs: Seq<Value>,
    body: Seq<Value>,
)
    requires
        bs.len() > 0,
    ensures
        bind_next(env, stack, local, bs, body).control is Eval ==> bind_next(
            env,
            stack,
            local,
            bs,
            body,
        ).env == env,
{
}

/// The body of a `let` and of a function runs in the local environment,
/// and the machine goes back to the environment outside when the last
/// expression of the body has its value; so the local bindings never reach
/// the outer environment.
pub proof fn lemma_body_returns_to_the_outer_environment(
    env: Scope,
    stack: Seq<Context>,
    local: Scope,
    after: Scope,
    v: Value,
)
    ensures
        resume(after, stack, Context::Body { rest: Seq::empty(), outer: Some(env) }, v) == ret(
            env,
            stack,
            v,
        ),
{
}

/// The state in which an evaluation ended with the value `v`.
pub open spec fn ended_with(done: State, v: Value) -> bool {
    done.control == Phase::Done(Ok::<Value, Failure>(v))
}

/// The state in which an evaluation ended with the failure `f`.
pub open spec fn ended_in(done: State, f: Failure) -> bool {
    done.control == Phase::Done(Err::<Value, Failure>(f))
}

/// What `(namespace/symbol s)` gives for a symbol `s` is a name exactly if
/// evaluating `s` finds a binding.
pub proof fn lemma_namespace_symbol_agrees(env: Scope, s: Seq<char>)
    ensures
        name_of(env, s) is Symbol <==> env.get(s) is Some,
        name_of(env, s) is Symbol || name_of(env, s) == Value::Bool(false),
{
    crate::env::lemma_qualified_name_is_resolution(env, s);
}

/// `(if c a b)` for any condition `c`: if evaluating `c` in `env` ends with
/// `#t` and leaves the environment `done.env`, then evaluating the `if`
/// gets, in one move more, to where the evaluation of `a` in `done.env`
/// starts, and with `#f` to where that of `b` starts. The state that is
/// reached holds nothing of the other branch: whatever that branch is, and
/// whatever evaluating it would do, the result and the environment are
/// those of the branch taken.
pub proof fn lemma_if_evaluates_one_branch<H: Fn(&Request) -> Reply>(
    host: H,
    env: Scope,
    c: Value,
    a: Value,
    b: Value,
    done: State,
    n: nat,
)
    requires
        driven(host, State::start(env, c), done, n),
    ensures
        ended_with(done, Value::Bool(true)) ==> driven(
            host,
            State::start(env, if_form(c, a, b)),
            State::start(done.env, a),
            n + 1,
        ),
        ended_with(done, Value::Bool(false)) ==> driven(
            host,
            State::start(env, if_form(c, a, b)),
            State::start(done.env, b),
            n + 1,
        ),
{
    lemma_keywords();
    let base = seq![Context::Branch { then: a, otherwise: b }];
    let first = State::start(env, if_form(c, a, b));
    let inner = under(State::start(env, c), base);
    assert(inner.stack =~= base);
    assert(Seq::<Context>::empty().push(Context::Branch { then: a, otherwise: b }) =~= base);
    assert(first.step() == inner);
    assert(base.drop_last() =~= Seq::<Context>::empty());
    if done.control is Done {
        lemma_run_under(host, State::start(env, c), done, n, base);
        match done.control {
            Phase::Done(Ok(Value::Bool(flag))) => {
                let handing = ret(done.env, base, Value::Bool(flag));
                lemma_driven_step(host, inner, handing, (n - 1) as nat);
                assert(handing.step() == State::start(
                    done.env,
                    if flag {
                        a
                    } else {
                        b
                    },
                ));
            },
            _ => {},
        }
    }
}

/// A condition that fails fails the `if` with the same failure, and a
/// condition whose value is no boolean fails it as an invalid condition;
/// neither branch is evaluated.
pub proof fn lemma_if_condition_fails<H: Fn(&Request) -> Reply>(
    host: H,
    env: Scope,
    c: Value,
    a: Value,
    b: Value,
    done: State,
    n: nat,
    f: Failure,
)
    requires
        driven(host, State::start(env, c), done, n),
        ended_in(done, f),
    ensures
        driven(
            host,
            State::start(env, if_form(c, a, b)),
            State { control: done.control, env: done.env, stack: Seq::empty() },
            n + 1,
        ),
{
    lemma_keywords();
    let base = seq![Context::Branch { then: a, otherwise: b }];
    let first = State::start(env, if_form(c, a, b));
    let inner = under(State::start(env, c), base);
    assert(inner.stack =~= base);
    assert(Seq::<Context>::empty().push(Context::Branch { then: a, otherwise: b }) =~= base);
    assert(first.step() == inner);
    lemma_run_under(host, State::start(env, c), done, n, base);
    reveal_with_fuel(unwind, 2);
    assert(base.drop_last() =~= Seq::<Context>::empty());
    assert(settled(done, base) == (State {
        control: done.control,
        env: done.env,
        stack: Seq::empty(),
    }));
}

/// One binding of a `let`: if evaluating its value `v` in the environment
/// outside the `let` ends with `x` and leaves that environment as
/// `done.env`, the machine goes on with the bindings that follow, in the
/// outer environment `done.env`; the name is bound in the environment of
/// the body only. So no value of a binding is ever evaluated in an
/// environment that holds the names bound before it.
pub proof fn lemma_let_binds_one<H: Fn(&Request) -> Reply>(
    host: H,
    env: Scope,
    stack: Seq<Context>,
    local: Scope,
    name: Seq<char>,
    v: Value,
    rest: Seq<Value>,
    body: Seq<Value>,
    done: State,
    n: nat,
    x: Value,
)
    requires
        driven(host, State::start(env, v), done, n),
        ended_with(done, x),
    ensures
        driven(
            host,
            bind_next(
                env,
                stack,
                local,
                seq![Value::List(seq![Value::Symbol(name), v])] + rest,
                body,
            ),
            bind_next(done.env, stack, local.insert(Path::parse(name), x), rest, body),
            n,
        ),
{
    let bs = seq![Value::List(seq![Value::Symbol(name), v])] + rest;
    assert(bs[0] == Value::List(seq![Value::Symbol(name), v]));
    assert(bs.skip(1) =~= rest);
    let waiting = Context::Bind { name, local, rest, body };
    let base = stack.push(waiting);
    let inner = under(State::start(env, v), base);
    assert(inner.stack =~= base);
    assert(bind_next(env, stack, local, bs, body) == inner);
    assert(base.drop_last() =~= stack);
    lemma_run_under(host, State::start(env, v), done, n, base);
    let handing = ret(done.env, base, x);
    lemma_driven_step(host, inner, handing, (n - 1) as nat);
}

/// One expression of a body: if evaluating `e` in the environment `local`
/// of the body ends with `v` and leaves that environment as `done.env`,
/// then either `e` was the last expression, and `v` is handed on as the
/// value of the body in the environment outside, which is as it was when
/// the body began; or the next expression is evaluated in `done.env`. So
/// what a body binds stays in the environment of the body.
pub proof fn lemma_body_goes_on<H: Fn(&Request) -> Reply>(
    host: H,
    local: Scope,
    stack: Seq<Context>,
    e: Value,
    rest: Seq<Value>,
    outer: Option<Scope>,
    done: State,
    n: nat,
    v: Value,
)
    requires
        driven(host, State::start(local, e), done, n),
        ended_with(done, v),
    ensures
        driven(
            host,
            go(local, stack.push(Context::Body { rest, outer }), e),
            if rest.len() == 0 {
                ret(
                    match outer {
                        Some(o) => o,
                        None => done.env,
                    },
                    stack,
                    v,
                )
            } else {
                go(done.env, stack.push(Context::Body { rest: rest.skip(1), outer }), rest[0])
            },
            n,
        ),
{
    let base = stack.push(Context::Body { rest, outer });
    let inner = under(State::start(local, e), base);
    assert(inner.stack =~= base);
    assert(base.drop_last() =~= stack);
    lemma_run_under(host, State::start(local, e), done, n, base);
    let handing = ret(done.env, base, v);
    lemma_driven_step(host, inner, handing, (n - 1) as nat);
}

/// A failure passes up: if evaluating `e` in `env` fails, then evaluating
/// it with any contexts waiting below fails the whole evaluation with the
/// same failure, in the same number of moves; the contexts are dropped and
/// nothing that they wait for is evaluated.
pub proof fn lemma_failure_passes_up<H: Fn(&Request) -> Reply>(
    host: H,
    env: Scope,
    stack: Seq<Context>,
    e: Value,
    done: State,
    n: nat,
    f: Failure,
)
    requires
        driven(host, State::start(env, e), done, n),
        ended_in(done, f),
    ensures
        driven(
            host,
            go(env, stack, e),
            State { control: done.control, env: unwind(stack, done.env), stack: Seq::empty() },
            n,
        ),
{
    assert(under(State::start(env, e), stack).stack =~= stack);
    lemma_run_under(host, State::start(env, e), done, n, stack);
}

/// A call of a user-defined function whose body is one expression: the
/// body is evaluated in the environment that the function captured, with
/// the function bound to its own name and the parameters to the arguments,
/// and in nothing else. When the body has its value, the caller goes on in
/// its own environment, which is as it was before the call: what the body
/// binds reaches neither the caller's environment nor the one captured.
pub proof fn lemma_call_runs_the_body<H: Fn(&Request) -> Reply>(
    host: H,
    env: Scope,
    stack: Seq<Context>,
    c: Closure,
    name: Seq<char>,
    args: Seq<Value>,
    done: State,
    n: nat,
    v: Value,
)
    requires
        c.body.len() == 1,
        bind_params(c.env.insert(Path::parse(name), Value::Function(c)), c.params, args, 0)
            is Some,
        driven(
            host,
            State::start(
                bind_params(
                    c.env.insert(Path::parse(name), Value::Function(c)),
                    c.params,
                    args,
                    0,
                )->0,
                c.body[0],
            ),
            done,
            n,
        ),
        ended_with(done, v),
    ensures
        driven(host, invoke(env, stack, Value::Function(c), name, args), ret(env, stack, v), n),
{
    let local = bind_params(
        c.env.insert(Path::parse(name), Value::Function(c)),
        c.params,
        args,
        0,
    )->0;
    assert(c.body.skip(1).len() == 0);
    lemma_body_goes_on(host, local, stack, c.body[0], c.body.skip(1), Some(env), done, n, v);
}

/// The form `(let (bindings…) body…)`.
pub open spec fn let_form(bindings: Seq<Value>, body: Seq<Value>) -> Value {
    Value::List(seq![Value::Symbol("let"@), Value::List(bindings)] + body)
}

/// A `let` with a body begins with its bindings; the environment of the
/// body is a copy of the environment outside, taken before any value is
/// evaluated. When no binding is left, the body begins in that copy, and
/// the environment outside is kept to go back to.
pub proof fn lemma_let_begins(
    env: Scope,
    stack: Seq<Context>,
    local: Scope,
    bindings: Seq<Value>,
    body: Seq<Value>,
)
    requires
        body.len() > 0,
    ensures
        go(env, stack, let_form(bindings, body)).step() == bind_next(
            env,
            stack,
            env,
            bindings,
            body,
        ),
        bind_next(env, stack, local, Seq::empty(), body) == go(
            local,
            stack.push(Context::Body { rest: body.skip(1), outer: Some(env) }),
            body[0],
        ),
{
    lemma_keywords();
    let items = seq![Value::Symbol("let"@), Value::List(bindings)] + body;
    assert(items[0] == Value::Symbol("let"@));
    assert(items[1] == Value::List(bindings));
    assert(items.skip(2) =~= body);
}

/// A `let` of one binding and one body expression, for any value `v` and
/// any body `e`: if `v`, evaluated in the environment outside, ends with
/// `x` and leaves that environment as `bound.env`, and `e`, evaluated in a
/// copy of the environment that was outside when the `let` began with the
/// name bound to `x`, ends with `r`, then the `let` has the value `r`, and
/// the environment afterwards is `bound.env`: the name is not bound in it,
/// and nothing that the body bound is.
pub proof fn lemma_let_of_one_binding<H: Fn(&Request) -> Reply>(
    host: H,
    env: Scope,
    name: Seq<char>,
    v: Value,
    e: Value,
    bound: State,
    n: nat,
    x: Value,
    done: State,
    m: nat,
    r: Value,
)
    requires
        driven(host, State::start(env, v), bound, n),
        ended_with(bound, x),
        driven(host, State::start(env.insert(Path::parse(name), x), e), done, m),
        ended_with(done, r),
    ensures
        driven(
            host,
            State::start(
                env,
                let_form(seq![Value::List(seq![Value::Symbol(name), v])], seq![e]),
            ),
            State { control: Phase::Done(Ok(r)), env: bound.env, stack: Seq::empty() },
            n + m + 2,
        ),
{
    let stack = Seq::<Context>::empty();
    let bindings = seq![Value::List(seq![Value::Symbol(name), v])];
    let body = seq![e];
    let first = State::start(env, let_form(bindings, body));
    let local = env.insert(Path::parse(name), x);
    lemma_let_begins(env, stack, local, bindings, body);
    lemma_let_begins(bound.env, stack, local, bindings, body);
    assert(bindings =~= bindings + Seq::<Value>::empty());
    lemma_let_binds_one(host, env, stack, env, name, v, Seq::empty(), body, bound, n, x);
    let binding = bind_next(env, stack, env, bindings, body);
    let entering = bind_next(bound.env, stack, local, Seq::empty(), body);
    assert(body.skip(1) =~= Seq::<Value>::empty());
    lemma_body_goes_on(
        host,
        local,
        stack,
        e,
        Seq::empty(),
        Some(bound.env),
        done,
        m,
        r,
    );
    let handing = ret(bound.env, stack, r);
    lemma_driven_chain(host, binding, entering, handing, n, m);
    lemma_driven_step(host, binding, handing, n + m);
    assert(first.step() == binding);
}

/// A call of a user-defined function with a body begins the body in the
/// local environment, which is made of the captured environment, the
/// function under its own name and the parameters bound to the arguments;
/// the caller's environment is kept to go back to.
pub proof fn lemma_call_begins_the_body(
    env: Scope,
    stack: Seq<Context>,
    c: Closure,
    name: Seq<char>,
    args: Seq<Value>,
)
    requires
        c.body.len() > 0,
        bind_params(c.env.insert(Path::parse(name), Value::Function(c)), c.params, args, 0)
            is Some,
    ensures
        invoke(env, stack, Value::Function(c), name, args) == go(
            bind_params(
                c.env.insert(Path::parse(name), Value::Function(c)),
                c.params,
                args,
                0,
            )->0,
            stack.push(Context::Body { rest: c.body.skip(1), outer: Some(env) }),
            c.body[0],
        ),
{
}

/// Whatever the host does, an evaluation of `(quote x)` that gets done has
/// the result `x` and leaves the environment as it was.
pub proof fn lemma_eval_quote<H: Fn(&Request) -> Reply>(
    host: H,
    env: Scope,
    x: Value,
    end: State,
    n: nat,
)
    requires
        driven(host, State::start(env, quote_form(x)), end, n),
        end.control is Done,
    ensures
        end.outcome() == (Ok::<Value, Failure>(x), env),
        n == 2,
{
    lemma_quote_returns_argument(env, Seq::empty(), x);
    reveal_with_fuel(driven, 4);
    reveal_with_fuel(State::steps, 3);
}

/// Whatever the host does, an evaluation of `(if #t a b)` goes on, after
/// three moves, exactly as an evaluation of `a` in the same environment
/// does, and one of `(if #f a b)` as an evaluation of `b`: the branch that
/// is not taken plays no part in it.
pub proof fn lemma_eval_if<H: Fn(&Request) -> Reply>(
    host: H,
    env: Scope,
    a: Value,
    b: Value,
    end: State,
    n: nat,
)
    requires
        n >= 3,
    ensures
        driven(host, State::start(env, if_form(Value::Bool(true), a, b)), end, n) == driven(
            host,
            State::start(env, a),
            end,
            (n - 3) as nat,
        ),
        driven(host, State::start(env, if_form(Value::Bool(false), a, b)), end, n) == driven(
            host,
            State::start(env, b),
            end,
            (n - 3) as nat,
        ),
{
    lemma_keywords();
    reveal_with_fuel(driven, 4);
    let stack = Seq::<Context>::empty();
    let waiting = stack.push(Context::Branch { then: a, otherwise: b });
    assert(waiting.drop_last() =~= stack);
    let yes = State::start(env, if_form(Value::Bool(true), a, b));
    assert(yes.step() == go(env, waiting, Value::Bool(true)));
    assert(yes.step().step() == ret(env, waiting, Value::Bool(true)));
    assert(yes.step().step().step() == go(env, stack, a));
    let no = State::start(env, if_form(Value::Bool(false), a, b));
    assert(no.step() == go(env, waiting, Value::Bool(false)));
    assert(no.step().step() == ret(env, waiting, Value::Bool(false)));
    assert(no.step().step().step() == go(env, stack, b));
}

/// Whatever the host does, an evaluation of a call whose head is no
/// keyword and resolves to nothing fails with the head's name and leaves
/// the environment as it was.
pub proof fn lemma_eval_undefined_function<H: Fn(&Request) -> Reply>(
    host: H,
    env: Scope,
    name: Seq<char>,
    args: Seq<Value>,
    end: State,
    n: nat,
)
    requires
        keyword(name) is None,
        env.get(name) is None,
        driven(host, State::start(env, Value::List(seq![Value::Symbol(name)] + args)), end, n),
        end.control is Done,
    ensures
        end.outcome() == (Err::<Value, Failure>(Failure::UndefinedFunction(name)), env),
        n == 1,
{
    lemma_undefined_function(env, Seq::empty(), name, args);
    reveal_with_fuel(driven, 3);
}

/// A failure drops every context and leaves the environment of the
/// outermost evaluation.
pub proof fn lemma_failure_unwinds(env: Scope, stack: Seq<Context>, f: Failure)
    ensures
        fail(env, stack, f).control == Phase::Done(Err::<Value, Failure>(f)),
        fail(env, stack, f).stack.len() == 0,
        fail(env, stack, f).env == unwind(stack, env),
        fail(env, stack, f).halted(),
{
}

/// A machine that waits or is done stays as it is, however many
/// transitions are asked of it.
pub proof fn lemma_halted_stays(s: State, n: nat)
    requires
        s.halted(),
    ensures
        s.steps(n) == s,
    decreases n,
{
    if n > 0 {
        lemma_halted_stays(s, (n - 1) as nat);
    }
}

/// Transitions add up: `m + n` of them are `m` followed by `n`.
pub proof fn lemma_steps_add(s: State, m: nat, n: nat)
    ensures
        s.steps(m + n) == s.steps(m).steps(n),
    decreases m,
{
    if m > 0 {
        lemma_steps_add(s.step(), (m - 1) as nat, n);
    }
}

} // verus!
