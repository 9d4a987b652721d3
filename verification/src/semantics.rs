//! The meaning of the language, as the transition function of an abstract
//! machine over mathematical values.
//!
//! A state holds what is being done (`Phase`), the current environment and
//! a stack of contexts that wait for a value. One transition does one small
//! piece of work. Work that the library cannot do itself (a primitive of the
//! host, reading a source file, printing) suspends the machine with a
//! `Demand`, and the host's `Answer` resumes it.

use crate::env::Scope;
use crate::expression::{render, Closure, Native, Value};
use crate::namespace::Path;
use crate::primitives::{builtin_spec, is_builtin};
use crate::text::{join, sep, split_path};
use vstd::prelude::*;

verus! {

/// The special forms: the list heads that control their own evaluation.
#[derive(Debug, Clone, Copy, PartialEq, Eq, Structural)]
pub enum Form {
    Define,
    DefineInNamespace,
    NamespaceSymbol,
    NamespaceAsList,
    Quote,
    EvalFile,
    Require,
    DeconstFn,
    If,
    Let,
    Lambda,
}

/// Why an evaluation failed.
pub enum Failure {
    /// A symbol was evaluated that resolves to no binding.
    UndefinedSymbol(Seq<char>),
    /// The head of a call resolves to no binding, or to one that is no
    /// function.
    UndefinedFunction(Seq<char>),
    /// A list was evaluated whose head is no symbol.
    InvalidForm,
    /// A user-defined function stood where an expression was expected.
    UnexpectedFunction,
    /// A special form was given operands of the wrong number or kind.
    InvalidSpecialForm(Form),
    /// A parameter of a function is no symbol.
    InvalidParameter,
    /// The condition of an `if` is no boolean.
    InvalidCondition,
    /// A namespaced definition left no binding under the qualified name.
    NoBinding(Seq<char>),
    /// A primitive refused its arguments, with its message.
    Primitive(Seq<char>),
    /// A source file could not be read as a program, with the host's
    /// message.
    ParseFailure(Seq<char>),
    /// The evaluation was given up before it was finished.
    Unfinished,
}

/// What the machine asks of the host.
pub enum Demand {
    /// Carry out a primitive on evaluated arguments.
    Call(Native, Seq<Value>),
    /// Read and parse the source file at a path.
    Load(Seq<char>),
    /// Print a line.
    Print(Seq<char>),
}

/// What the host answers.
pub enum Answer {
    /// The value that a primitive returned.
    Value(Value),
    /// The forms of a source file.
    Forms(Seq<Value>),
    /// The line was printed.
    Printed,
    /// The primitive or the reading failed, with a message.
    Failure(Seq<char>),
}

/// What the machine is doing.
pub enum Phase {
    /// About to evaluate an expression in the current environment.
    Eval(Value),
    /// Handing a value to the context on top of the stack.
    Return(Value),
    /// Suspended until the host answers.
    Waiting(Demand),
    /// Finished.
    Done(Result<Value, Failure>),
}

/// A context that waits for the value of a sub-expression.
pub enum Context {
    /// Bind the value to `name`; the form's value is the name.
    Define { name: Seq<char> },
    /// A namespaced definition ran in an extended copy of `outer`: copy the
    /// binding of `name` into `outer` and go on there.
    Export { outer: Scope, name: Seq<char> },
    /// The value, if a symbol, is to be resolved to its qualified name.
    Resolve,
    /// The value is the condition of an `if` with these branches.
    Branch { then: Value, otherwise: Value },
    /// The value is for the `let` binding `name`; `local` is the body's
    /// environment so far, `rest` the bindings still to do.
    Bind { name: Seq<char>, local: Scope, rest: Seq<Value>, body: Seq<Value> },
    /// The value is the next argument of a call of `callee` under `name`.
    Args { callee: Value, name: Seq<char>, done: Seq<Value>, rest: Seq<Value> },
    /// The value is that of one expression of a sequence; `rest` are the
    /// expressions still to do. When the sequence ran in an environment of
    /// its own, `outer` is the one to go back to.
    Body { rest: Seq<Value>, outer: Option<Scope> },
}

/// A state of the machine.
pub struct State {
    pub control: Phase,
    pub env: Scope,
    pub stack: Seq<Context>,
}

/// The special form that a head symbol names, if any.
pub open spec fn keyword(s: Seq<char>) -> Option<Form> {
    if s == "define"@ {
        Some(Form::Define)
    } else if s == "define/in-namespace"@ {
        Some(Form::DefineInNamespace)
    } else if s == "namespace/symbol"@ {
        Some(Form::NamespaceSymbol)
    } else if s == "namespace/as-list"@ {
        Some(Form::NamespaceAsList)
    } else if s == "quote"@ {
        Some(Form::Quote)
    } else if s == "eval-file"@ {
        Some(Form::EvalFile)
    } else if s == "require"@ {
        Some(Form::Require)
    } else if s == "deconst-fn"@ {
        Some(Form::DeconstFn)
    } else if s == "if"@ {
        Some(Form::If)
    } else if s == "let"@ {
        Some(Form::Let)
    } else if s == "lambda"@ {
        Some(Form::Lambda)
    } else {
        None
    }
}

impl Context {
    /// The environment that this context goes back to, if it holds one.
    pub open spec fn outer(self) -> Option<Scope> {
        match self {
            Context::Export { outer, .. } => Some(outer),
            Context::Body { outer, .. } => outer,
            _ => None,
        }
    }
}

/// The environment of the outermost evaluation: what `env` was replaced for
/// by the lowest context of `stack` that holds an environment, or `env`
/// itself if none does.
pub open spec fn unwind(stack: Seq<Context>, env: Scope) -> Scope
    decreases stack.len(),
{
    if stack.len() == 0 {
        env
    } else {
        unwind(
            stack.drop_last(),
            match stack.last().outer() {
                Some(o) => o,
                None => env,
            },
        )
    }
}

/// The state that hands `v` to the top of `stack`.
pub open spec fn ret(env: Scope, stack: Seq<Context>, v: Value) -> State {
    State { control: Phase::Return(v), env, stack }
}

/// The state that is about to evaluate `v`.
pub open spec fn go(env: Scope, stack: Seq<Context>, v: Value) -> State {
    State { control: Phase::Eval(v), env, stack }
}

/// The state that waits for the host.
pub open spec fn wait(env: Scope, stack: Seq<Context>, d: Demand) -> State {
    State { control: Phase::Waiting(d), env, stack }
}

/// The failed state: every context is dropped, and the environment is that
/// of the outermost evaluation, with the changes made to it so far.
pub open spec fn fail(env: Scope, stack: Seq<Context>, f: Failure) -> State {
    State { control: Phase::Done(Err(f)), env: unwind(stack, env), stack: Seq::empty() }
}

/// Whether every value is a symbol.
pub open spec fn all_symbols(xs: Seq<Value>) -> bool {
    forall|i: int| 0 <= i < xs.len() ==> (#[trigger] xs[i]) is Symbol
}

/// The form `(lambda (params…) body…)`.
pub open spec fn lambda_form(params: Seq<Value>, body: Seq<Value>) -> Value {
    Value::List(seq![Value::Symbol("lambda"@), Value::List(params)] + body)
}

/// The symbol for the qualified name that `name` stands for, or `#f`.
pub open spec fn name_of(env: Scope, name: Seq<char>) -> Value {
    match env.qualified_name(name) {
        Some(q) => Value::Symbol(q),
        None => Value::Bool(false),
    }
}

/// The namespaces in scope as a list of symbols.
pub open spec fn scope_list(env: Scope) -> Value {
    Value::List(Seq::new(env.scopes.len(), |i: int| Value::Symbol(join(env.scopes[i], sep()))))
}

/// Starts the sequence `body` in the environment `local`, to come back to
/// `env` afterwards. An empty sequence has the value `default`.
pub open spec fn enter(
    env: Scope,
    stack: Seq<Context>,
    local: Scope,
    body: Seq<Value>,
    default: Value,
) -> State {
    if body.len() == 0 {
        ret(env, stack, default)
    } else {
        go(local, stack.push(Context::Body { rest: body.skip(1), outer: Some(env) }), body[0])
    }
}

/// Starts the sequence `forms` in the current environment. An empty
/// sequence has the value `default`.
pub open spec fn sequence(env: Scope, stack: Seq<Context>, forms: Seq<Value>, default: Value) -> State {
    if forms.len() == 0 {
        ret(env, stack, default)
    } else {
        go(env, stack.push(Context::Body { rest: forms.skip(1), outer: None }), forms[0])
    }
}

/// `local` with the parameters from index `i` on bound to the arguments at
/// the same positions, as far as both go; `None` if one of those parameters
/// is no symbol.
pub open spec fn bind_params(local: Scope, params: Seq<Value>, args: Seq<Value>, i: int) -> Option<
    Scope,
>
    decreases params.len() - i,
{
    if i < 0 || i >= params.len() || i >= args.len() {
        Some(local)
    } else {
        match params[i] {
            Value::Symbol(p) => bind_params(
                local.insert(Path::parse(p), args[i]),
                params,
                args,
                i + 1,
            ),
            _ => None,
        }
    }
}

/// Calls `callee`, met under `name`, on the evaluated arguments `args`.
///
/// A primitive of the library gives its result at once; one of the host
/// suspends the machine. A user-defined function runs its body in a copy of
/// its captured environment, in which `name` is bound to the function
/// itself and the parameters to the arguments, position by position; spare
/// arguments are ignored and spare parameters stay unbound. An empty body
/// has the value `#f`.
pub open spec fn invoke(
    env: Scope,
    stack: Seq<Context>,
    callee: Value,
    name: Seq<char>,
    args: Seq<Value>,
) -> State {
    match callee {
        Value::Func(native) => if is_builtin(native) {
            match builtin_spec(native, args) {
                Ok(v) => ret(env, stack, v),
                Err(m) => fail(env, stack, Failure::Primitive(m)),
            }
        } else {
            wait(env, stack, Demand::Call(native, args))
        },
        Value::Function(c) => match bind_params(
            c.env.insert(Path::parse(name), callee),
            c.params,
            args,
            0,
        ) {
            Some(local) => enter(env, stack, local, c.body, Value::Bool(false)),
            None => fail(env, stack, Failure::InvalidParameter),
        },
        _ => fail(env, stack, Failure::UndefinedFunction(name)),
    }
}

/// Evaluates the argument expressions `rest` one after the other, from the
/// left, in the caller's environment, then calls `callee`.
pub open spec fn collect(
    env: Scope,
    stack: Seq<Context>,
    callee: Value,
    name: Seq<char>,
    done: Seq<Value>,
    rest: Seq<Value>,
) -> State {
    if rest.len() == 0 {
        invoke(env, stack, callee, name, done)
    } else {
        go(env, stack.push(Context::Args { callee, name, done, rest: rest.skip(1) }), rest[0])
    }
}

/// An ordinary call: the head must resolve to a function.
pub open spec fn apply(env: Scope, stack: Seq<Context>, name: Seq<char>, args: Seq<Value>) -> State {
    match env.get(name) {
        Some(callee) => if callee is Func || callee is Function {
            collect(env, stack, callee, name, Seq::empty(), args)
        } else {
            fail(env, stack, Failure::UndefinedFunction(name))
        },
        None => fail(env, stack, Failure::UndefinedFunction(name)),
    }
}

/// `(lambda (p…) body…)`: a function that captures the environment as it
/// is now. Nothing is bound.
pub open spec fn eval_lambda(env: Scope, stack: Seq<Context>, items: Seq<Value>) -> State {
    if items.len() < 3 {
        fail(env, stack, Failure::InvalidSpecialForm(Form::Lambda))
    } else {
        match items[1] {
            Value::List(params) => if all_symbols(params) {
                ret(
                    env,
                    stack,
                    Value::Function(Closure { params, body: items.skip(2), env }),
                )
            } else {
                fail(env, stack, Failure::InvalidParameter)
            },
            _ => fail(env, stack, Failure::InvalidSpecialForm(Form::Lambda)),
        }
    }
}

/// `(define name expr)` evaluates `expr` and binds `name` to its value.
/// `(define (name p…) body…)` stands for
/// `(define name (lambda (p…) body…))`.
pub open spec fn eval_define(env: Scope, stack: Seq<Context>, items: Seq<Value>) -> State {
    if items.len() < 3 {
        fail(env, stack, Failure::InvalidSpecialForm(Form::Define))
    } else {
        match items[1] {
            Value::List(head) => if head.len() > 0 && head[0] is Symbol {
                go(
                    env,
                    stack.push(Context::Define { name: head[0]->Symbol_0 }),
                    lambda_form(head.skip(1), items.skip(2)),
                )
            } else {
                fail(env, stack, Failure::InvalidSpecialForm(Form::Define))
            },
            Value::Symbol(name) => go(env, stack.push(Context::Define { name }), items[2]),
            _ => fail(env, stack, Failure::InvalidSpecialForm(Form::Define)),
        }
    }
}

/// The name `ns::name`.
pub open spec fn qualify(ns: Seq<char>, name: Seq<char>) -> Seq<char> {
    ns + sep() + name
}

/// The qualified name that a `define` form binds inside the namespace
/// `ns`, and the form rewritten to bind that name.
pub open spec fn qualified_define(ns: Seq<char>, inner: Seq<Value>) -> Option<
    (Seq<char>, Seq<Value>),
> {
    if inner.len() < 2 {
        None
    } else {
        match inner[1] {
            Value::List(head) => if head.len() > 0 && head[0] is Symbol {
                let full = qualify(ns, head[0]->Symbol_0);
                Some((full, inner.update(1, Value::List(head.update(0, Value::Symbol(full))))))
            } else {
                None
            },
            Value::Symbol(name) => {
                let full = qualify(ns, name);
                Some((full, inner.update(1, Value::Symbol(full))))
            },
            _ => None,
        }
    }
}

/// `(define/in-namespace ns (define …))`: the inner definition runs, under
/// the qualified name, in a copy of the environment that has `ns` added to
/// its search path; afterwards the one new binding is copied back.
pub open spec fn eval_define_namespace(env: Scope, stack: Seq<Context>, items: Seq<Value>) -> State {
    if items.len() < 3 {
        fail(env, stack, Failure::InvalidSpecialForm(Form::DefineInNamespace))
    } else {
        match items[1] {
            Value::List(_) => eval_define(env, stack, items),
            Value::Symbol(ns) => match items[2] {
                Value::List(inner) => if inner.len() > 0 && inner[0] == Value::Symbol("define"@) {
                    match qualified_define(ns, inner) {
                        Some((full, rewritten)) => go(
                            env.add_scope(split_path(ns)),
                            stack.push(Context::Export { outer: env, name: full }),
                            Value::List(rewritten),
                        ),
                        None => fail(
                            env,
                            stack,
                            Failure::InvalidSpecialForm(Form::DefineInNamespace),
                        ),
                    }
                } else {
                    fail(env, stack, Failure::InvalidSpecialForm(Form::DefineInNamespace))
                },
                _ => fail(env, stack, Failure::InvalidSpecialForm(Form::DefineInNamespace)),
            },
            _ => fail(env, stack, Failure::InvalidSpecialForm(Form::DefineInNamespace)),
        }
    }
}

/// `(namespace/symbol x)`: the qualified name that the symbol `x`, or the
/// symbol that `x` evaluates to, stands for; `#f` if there is none.
pub open spec fn eval_namespace_symbol(env: Scope, stack: Seq<Context>, items: Seq<Value>) -> State {
    if items.len() < 2 {
        fail(env, stack, Failure::InvalidSpecialForm(Form::NamespaceSymbol))
    } else {
        match items[1] {
            Value::Symbol(s) => ret(env, stack, name_of(env, s)),
            other => go(env, stack.push(Context::Resolve), other),
        }
    }
}

/// `(quote x)`: `x` itself, unevaluated.
pub open spec fn eval_quote(env: Scope, stack: Seq<Context>, items: Seq<Value>) -> State {
    if items.len() < 2 {
        fail(env, stack, Failure::InvalidSpecialForm(Form::Quote))
    } else {
        ret(env, stack, items[1])
    }
}

/// `(if cond then else)`: evaluates `cond` first.
pub open spec fn eval_if(env: Scope, stack: Seq<Context>, items: Seq<Value>) -> State {
    if items.len() != 4 {
        fail(env, stack, Failure::InvalidSpecialForm(Form::If))
    } else {
        go(env, stack.push(Context::Branch { then: items[2], otherwise: items[3] }), items[1])
    }
}

/// Goes on with the `let` bindings `bs`: evaluates the value of the first
/// in the outer environment `env`, or, when none is left, starts the body
/// in `local`.
pub open spec fn bind_next(
    env: Scope,
    stack: Seq<Context>,
    local: Scope,
    bs: Seq<Value>,
    body: Seq<Value>,
) -> State {
    if bs.len() == 0 {
        enter(env, stack, local, body, Value::Bool(false))
    } else {
        match bs[0] {
            Value::List(pair) => if pair.len() == 2 && pair[0] is Symbol {
                go(
                    env,
                    stack.push(
                        Context::Bind { name: pair[0]->Symbol_0, local, rest: bs.skip(1), body },
                    ),
                    pair[1],
                )
            } else {
                fail(env, stack, Failure::InvalidSpecialForm(Form::Let))
            },
            _ => fail(env, stack, Failure::InvalidSpecialForm(Form::Let)),
        }
    }
}

/// `(let ((name value)…) body…)`: every `value` is evaluated in the
/// environment outside the `let`; the body runs in a copy of that
/// environment, taken before any of them is evaluated, with the names
/// bound. A `let` without a body is refused.
pub open spec fn eval_let(env: Scope, stack: Seq<Context>, items: Seq<Value>) -> State {
    if items.len() < 3 {
        fail(env, stack, Failure::InvalidSpecialForm(Form::Let))
    } else {
        match items[1] {
            Value::List(bs) => bind_next(env, stack, env, bs, items.skip(2)),
            _ => fail(env, stack, Failure::InvalidSpecialForm(Form::Let)),
        }
    }
}

/// `(require ns)`: adds `ns` at the end of the search path.
pub open spec fn eval_require(env: Scope, stack: Seq<Context>, items: Seq<Value>) -> State {
    if items.len() == 2 && items[1] is Symbol {
        ret(env.add_scope(split_path(items[1]->Symbol_0)), stack, Value::Bool(true))
    } else {
        fail(env, stack, Failure::InvalidSpecialForm(Form::Require))
    }
}

/// `(eval-file path)`: asks the host for the forms of the file.
pub open spec fn eval_file(env: Scope, stack: Seq<Context>, items: Seq<Value>) -> State {
    if items.len() == 2 && items[1] is Symbol {
        wait(env, stack, Demand::Load(items[1]->Symbol_0))
    } else {
        fail(env, stack, Failure::InvalidSpecialForm(Form::EvalFile))
    }
}

/// `(deconst-fn name)`: asks the host to print what `name` is bound to.
pub open spec fn eval_deconst_fn(env: Scope, stack: Seq<Context>, items: Seq<Value>) -> State {
    if items.len() == 2 && items[1] is Symbol {
        match env.get(items[1]->Symbol_0) {
            Some(v) => wait(env, stack, Demand::Print(render(v, true))),
            None => fail(env, stack, Failure::UndefinedSymbol(items[1]->Symbol_0)),
        }
    } else {
        fail(env, stack, Failure::InvalidSpecialForm(Form::DeconstFn))
    }
}

/// Evaluates a list: a special form if its head is a keyword, an ordinary
/// call otherwise.
pub open spec fn eval_list(env: Scope, stack: Seq<Context>, items: Seq<Value>) -> State {
    if items.len() == 0 || !(items[0] is Symbol) {
        fail(env, stack, Failure::InvalidForm)
    } else {
        let head = items[0]->Symbol_0;
        match keyword(head) {
            Some(Form::Define) => eval_define(env, stack, items),
            Some(Form::DefineInNamespace) => eval_define_namespace(env, stack, items),
            Some(Form::NamespaceSymbol) => eval_namespace_symbol(env, stack, items),
            Some(Form::NamespaceAsList) => ret(env, stack, scope_list(env)),
            Some(Form::Quote) => eval_quote(env, stack, items),
            Some(Form::EvalFile) => eval_file(env, stack, items),
            Some(Form::Require) => eval_require(env, stack, items),
            Some(Form::DeconstFn) => eval_deconst_fn(env, stack, items),
            Some(Form::If) => eval_if(env, stack, items),
            Some(Form::Let) => eval_let(env, stack, items),
            Some(Form::Lambda) => eval_lambda(env, stack, items),
            None => apply(env, stack, head, items.skip(1)),
        }
    }
}

/// Evaluates an expression: a symbol is looked up, a list is a form, a
/// user-defined function is refused, everything else is its own value.
pub open spec fn eval(env: Scope, stack: Seq<Context>, v: Value) -> State {
    match v {
        Value::Symbol(s) => match env.get(s) {
            Some(x) => ret(env, stack, x),
            None => fail(env, stack, Failure::UndefinedSymbol(s)),
        },
        Value::List(items) => eval_list(env, stack, items),
        Value::Function(_) => fail(env, stack, Failure::UnexpectedFunction),
        _ => ret(env, stack, v),
    }
}

/// Hands the value `v` to the context `top`, which was on top of `stack`.
pub open spec fn resume(env: Scope, stack: Seq<Context>, top: Context, v: Value) -> State {
    match top {
        Context::Define { name } => ret(
            env.insert(Path::parse(name), v),
            stack,
            Value::Symbol(name),
        ),
        Context::Export { outer, name } => match env.get(name) {
            Some(bound) => ret(outer.insert(Path::parse(name), bound), stack, Value::Symbol(name)),
            None => fail(outer, stack, Failure::NoBinding(name)),
        },
        Context::Resolve => match v {
            Value::Symbol(s) => ret(env, stack, name_of(env, s)),
            _ => ret(env, stack, Value::Bool(false)),
        },
        Context::Branch { then, otherwise } => match v {
            Value::Bool(b) => go(
                env,
                stack,
                if b {
                    then
                } else {
                    otherwise
                },
            ),
            _ => fail(env, stack, Failure::InvalidCondition),
        },
        Context::Bind { name, local, rest, body } => bind_next(
            env,
            stack,
            local.insert(Path::parse(name), v),
            rest,
            body,
        ),
        Context::Args { callee, name, done, rest } => collect(
            env,
            stack,
            callee,
            name,
            done.push(v),
            rest,
        ),
        Context::Body { rest, outer } => if rest.len() == 0 {
            ret(
                match outer {
                    Some(o) => o,
                    None => env,
                },
                stack,
                v,
            )
        } else {
            go(env, stack.push(Context::Body { rest: rest.skip(1), outer }), rest[0])
        },
    }
}

impl State {
    /// The state that is about to evaluate `v` in `env`, with nothing
    /// waiting for its value.
    pub open spec fn start(env: Scope, v: Value) -> State {
        State { control: Phase::Eval(v), env, stack: Seq::empty() }
    }

    /// Whether the machine stands still: it waits for the host or is done.
    pub open spec fn halted(self) -> bool {
        self.control is Waiting || self.control is Done
    }

    /// One transition. A state that stands still stays as it is.
    pub open spec fn step(self) -> State {
        match self.control {
            Phase::Eval(v) => eval(self.env, self.stack, v),
            Phase::Return(v) => if self.stack.len() == 0 {
                State { control: Phase::Done(Ok(v)), env: self.env, stack: self.stack }
            } else {
                resume(self.env, self.stack.drop_last(), self.stack.last(), v)
            },
            _ => self,
        }
    }

    /// `n` transitions.
    pub open spec fn steps(self, n: nat) -> State
        decreases n,
    {
        if n == 0 {
            self
        } else {
            self.step().steps((n - 1) as nat)
        }
    }

    /// The state after the host's answer. An answer that does not fit what
    /// the machine waits for changes nothing.
    pub open spec fn answer(self, a: Answer) -> State {
        match (self.control, a) {
            (Phase::Waiting(Demand::Call(_, _)), Answer::Value(v)) => ret(self.env, self.stack, v),
            (Phase::Waiting(Demand::Call(_, _)), Answer::Failure(m)) => fail(
                self.env,
                self.stack,
                Failure::Primitive(m),
            ),
            (Phase::Waiting(Demand::Load(_)), Answer::Forms(fs)) => sequence(
                self.env,
                self.stack,
                fs,
                Value::Bool(true),
            ),
            (Phase::Waiting(Demand::Load(_)), Answer::Failure(m)) => fail(
                self.env,
                self.stack,
                Failure::ParseFailure(m),
            ),
            (Phase::Waiting(Demand::Print(_)), Answer::Printed) => ret(
                self.env,
                self.stack,
                Value::Bool(true),
            ),
            _ => self,
        }
    }

    /// What an evaluation that is ended now has to show: its result if it
    /// is done, and the environment of the outermost evaluation.
    pub open spec fn outcome(self) -> (Result<Value, Failure>, Scope) {
        match self.control {
            Phase::Done(r) => (r, unwind(self.stack, self.env)),
            _ => (Err(Failure::Unfinished), unwind(self.stack, self.env)),
        }
    }
}

} // verus!
