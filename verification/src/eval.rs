//! The evaluator: an abstract machine that carries out the transitions of
//! [`crate::semantics`] on real values.
//!
//! The host starts a [`Machine`] on an expression, lets it run, serves each
//! [`Request`] that suspends it, and takes the result and the environment
//! when it is done.

use crate::env::{Environment, Scope};
use crate::expression::{
    copy_expressions, lemma_values_concat, lemma_values_push, values, Expression, Native,
    Procedure, Value,
};
use crate::namespace::Namespace;
use crate::primitives::builtin;
use crate::semantics::{
    all_symbols, bind_params, keyword, name_of, qualified_define, qualify,
    scope_list, unwind, Answer, Context, Demand, Failure, Form, Phase, State,
};
use crate::text::{join, sep, str_eq};
use vstd::prelude::*;

verus! {

/// Why an evaluation failed.
#[derive(Debug, PartialEq)]
pub enum EvalError {
    /// A symbol was evaluated that resolves to no binding.
    UndefinedSymbol(String),
    /// The head of a call resolves to no binding, or to one that is no
    /// function.
    UndefinedFunction(String),
    /// A list was evaluated whose head is no symbol.
    InvalidForm,
    /// A user-defined function stood where an expression was expected.
    UnexpectedFunction,
    /// A special form was given operands of the wrong number or kind.
    InvalidSpecialForm(Form),
    /// A parameter of a function is no symbol.
    InvalidParameter,
    /// The condition of an `if` is no boolean.
    InvalidCondition,
    /// A namespaced definition left no binding under the qualified name.
    NoBinding(String),
    /// A primitive refused its arguments, with its message.
    Primitive(String),
    /// A source file could not be read as a program, with the host's
    /// message.
    ParseFailure(String),
    /// The evaluation was given up before it was finished.
    Unfinished,
}

/// What the machine asks of the host.
#[derive(Debug, PartialEq)]
pub enum Request {
    /// Carry out a primitive on evaluated arguments.
    Call(Native, Vec<Expression>),
    /// Read and parse the source file at a path.
    Load(String),
    /// Print a line.
    Print(String),
}

/// What the host answers.
#[derive(Debug, PartialEq)]
pub enum Reply {
    /// The value that a primitive returned.
    Value(Expression),
    /// The forms of a source file.
    Forms(Vec<Expression>),
    /// The line was printed.
    Printed,
    /// The primitive or the reading failed, with a message.
    Failure(String),
}

/// What the machine is doing.
#[derive(Debug, PartialEq)]
pub enum Control {
    Eval(Expression),
    Return(Expression),
    Waiting(Request),
    Done(Result<Expression, EvalError>),
}

/// A context that waits for the value of a sub-expression.
#[derive(Debug, PartialEq)]
pub enum Frame {
    Define { name: String },
    Export { outer: Environment, name: String },
    Resolve,
    Branch { then: Expression, otherwise: Expression },
    Bind { name: String, local: Environment, rest: Vec<Expression>, body: Vec<Expression> },
    Args { callee: Expression, name: String, done: Vec<Expression>, rest: Vec<Expression> },
    Body { rest: Vec<Expression>, outer: Option<Environment> },
}

/// Whether a machine can go on by itself.
#[derive(Debug, Clone, Copy, PartialEq, Eq, Structural)]
pub enum Status {
    /// The next transition changes the state.
    Running,
    /// The machine waits for the host's reply to its request.
    Waiting,
    /// The evaluation is finished.
    Done,
}

/// The abstract machine.
#[derive(Debug, PartialEq)]
pub struct Machine {
    control: Control,
    env: Environment,
    stack: Vec<Frame>,
}

impl View for EvalError {
    type V = Failure;

    open spec fn view(&self) -> Failure {
        match self {
            EvalError::UndefinedSymbol(s) => Failure::UndefinedSymbol(s@),
            EvalError::UndefinedFunction(s) => Failure::UndefinedFunction(s@),
            EvalError::InvalidForm => Failure::InvalidForm,
            EvalError::UnexpectedFunction => Failure::UnexpectedFunction,
            EvalError::InvalidSpecialForm(f) => Failure::InvalidSpecialForm(*f),
            EvalError::InvalidParameter => Failure::InvalidParameter,
            EvalError::InvalidCondition => Failure::InvalidCondition,
            EvalError::NoBinding(s) => Failure::NoBinding(s@),
            EvalError::Primitive(s) => Failure::Primitive(s@),
            EvalError::ParseFailure(s) => Failure::ParseFailure(s@),
            EvalError::Unfinished => Failure::Unfinished,
        }
    }
}

impl View for Request {
    type V = Demand;

    open spec fn view(&self) -> Demand {
        match self {
            Request::Call(n, args) => Demand::Call(*n, values(args@)),
            Request::Load(p) => Demand::Load(p@),
            Request::Print(t) => Demand::Print(t@),
        }
    }
}

impl View for Reply {
    type V = Answer;

    open spec fn view(&self) -> Answer {
        match self {
            Reply::Value(v) => Answer::Value(v@),
            Reply::Forms(fs) => Answer::Forms(values(fs@)),
            Reply::Printed => Answer::Printed,
            Reply::Failure(m) => Answer::Failure(m@),
        }
    }
}

impl Form {
    /// The keyword that names the form.
    pub open spec fn name(self) -> Seq<char> {
        match self {
            Form::Define => "define"@,
            Form::DefineInNamespace => "define/in-namespace"@,
            Form::NamespaceSymbol => "namespace/symbol"@,
            Form::NamespaceAsList => "namespace/as-list"@,
            Form::Quote => "quote"@,
            Form::EvalFile => "eval-file"@,
            Form::Require => "require"@,
            Form::DeconstFn => "deconst-fn"@,
            Form::If => "if"@,
            Form::Let => "let"@,
            Form::Lambda => "lambda"@,
        }
    }

    /// The keyword that names the form.
    pub fn keyword(self) -> (r: &'static str)
        ensures
            r@ == self.name(),
    {
        match self {
            Form::Define => "define",
            Form::DefineInNamespace => "define/in-namespace",
            Form::NamespaceSymbol => "namespace/symbol",
            Form::NamespaceAsList => "namespace/as-list",
            Form::Quote => "quote",
            Form::EvalFile => "eval-file",
            Form::Require => "require",
            Form::DeconstFn => "deconst-fn",
            Form::If => "if",
            Form::Let => "let",
            Form::Lambda => "lambda",
        }
    }
}

impl Failure {
    /// The failure in words.
    pub open spec fn message(self) -> Seq<char> {
        match self {
            Failure::UndefinedSymbol(s) => "Undefined symbol: "@ + s,
            Failure::UndefinedFunction(s) => "Undefined function: "@ + s,
            Failure::InvalidForm => "Expected a symbol"@,
            Failure::UnexpectedFunction => "Unexpected function definition"@,
            Failure::InvalidSpecialForm(f) => "Invalid form of `"@ + f.name() + "`"@,
            Failure::InvalidParameter => "Invalid parameter name"@,
            Failure::InvalidCondition => "Invalid condition in if expression"@,
            Failure::NoBinding(s) => "Inner define made no binding for "@ + s,
            Failure::Primitive(m) => m,
            Failure::ParseFailure(m) => "Parsing failed: "@ + m,
            Failure::Unfinished => "Evaluation was not finished"@,
        }
    }
}

impl EvalError {
    /// The error in words.
    pub fn message(&self) -> (r: String)
        ensures
            r@ == self@.message(),
    {
        match self {
            EvalError::UndefinedSymbol(s) => "Undefined symbol: ".to_owned().concat(s.as_str()),
            EvalError::UndefinedFunction(s) => "Undefined function: ".to_owned().concat(s.as_str()),
            EvalError::InvalidForm => "Expected a symbol".to_owned(),
            EvalError::UnexpectedFunction => "Unexpected function definition".to_owned(),
            EvalError::InvalidSpecialForm(f) => "Invalid form of `".to_owned().concat(
                f.keyword(),
            ).concat("`"),
            EvalError::InvalidParameter => "Invalid parameter name".to_owned(),
            EvalError::InvalidCondition => "Invalid condition in if expression".to_owned(),
            EvalError::NoBinding(s) => "Inner define made no binding for ".to_owned().concat(
                s.as_str(),
            ),
            EvalError::Primitive(m) => m.clone(),
            EvalError::ParseFailure(m) => "Parsing failed: ".to_owned().concat(m.as_str()),
            EvalError::Unfinished => "Evaluation was not finished".to_owned(),
        }
    }
}

/// The result of an evaluation as a mathematical value.
pub open spec fn result_view(r: Result<Expression, EvalError>) -> Result<Value, Failure> {
    match r {
        Ok(v) => Ok(v@),
        Err(e) => Err(e@),
    }
}

impl View for Control {
    type V = Phase;

    open spec fn view(&self) -> Phase {
        match self {
            Control::Eval(e) => Phase::Eval(e@),
            Control::Return(v) => Phase::Return(v@),
            Control::Waiting(r) => Phase::Waiting(r@),
            Control::Done(r) => Phase::Done(result_view(*r)),
        }
    }
}

/// An optional environment as a mathematical value.
pub open spec fn scope_view(o: Option<Environment>) -> Option<Scope> {
    match o {
        Some(e) => Some(e@),
        None => None,
    }
}

impl View for Frame {
    type V = Context;

    open spec fn view(&self) -> Context {
        match self {
            Frame::Define { name } => Context::Define { name: name@ },
            Frame::Export { outer, name } => Context::Export { outer: outer@, name: name@ },
            Frame::Resolve => Context::Resolve,
            Frame::Branch { then, otherwise } => Context::Branch {
                then: then@,
                otherwise: otherwise@,
            },
            Frame::Bind { name, local, rest, body } => Context::Bind {
                name: name@,
                local: local@,
                rest: values(rest@),
                body: values(body@),
            },
            Frame::Args { callee, name, done, rest } => Context::Args {
                callee: callee@,
                name: name@,
                done: values(done@),
                rest: values(rest@),
            },
            Frame::Body { rest, outer } => Context::Body {
                rest: values(rest@),
                outer: scope_view(*outer),
            },
        }
    }
}

/// The contexts of a stack of frames.
pub open spec fn contexts(s: Seq<Frame>) -> Seq<Context> {
    Seq::new(s.len(), |i: int| s[i]@)
}

impl View for Machine {
    type V = State;

    open spec fn view(&self) -> State {
        self.state()
    }
}

broadcast use crate::expression::group_values;

/// Takes the first expression out of `v`.
fn take_first(v: &mut Vec<Expression>) -> (first: Expression)
    requires
        old(v).len() > 0,
    ensures
        first@ == values(old(v)@)[0],
        values(final(v)@) == values(old(v)@).skip(1),
        final(v).len() == old(v).len() - 1,
{
    let first = v.remove(0);
    assert(values(v@) =~= values(old(v)@).skip(1));
    first
}

/// Takes the last expression out of `v`.
fn take_last(v: &mut Vec<Expression>) -> (last: Expression)
    requires
        old(v).len() > 0,
    ensures
        last@ == values(old(v)@).last(),
        values(final(v)@) == values(old(v)@).drop_last(),
        final(v).len() == old(v).len() - 1,
{
    let last = v.pop().unwrap();
    assert(values(v@) =~= values(old(v)@).drop_last());
    last
}

/// Takes the expressions from index `at` on out of `v`.
fn take_tail(v: &mut Vec<Expression>, at: usize) -> (tail: Vec<Expression>)
    requires
        at <= old(v).len(),
    ensures
        values(tail@) == values(old(v)@).skip(at as int),
        values(final(v)@) == values(old(v)@).take(at as int),
        final(v).len() == at,
        tail.len() == old(v).len() - at,
{
    let tail = v.split_off(at);
    assert(values(tail@) =~= values(old(v)@).skip(at as int));
    assert(values(v@) =~= values(old(v)@).take(at as int));
    tail
}

/// The special form that the head symbol `s` names, if any.
pub fn parse_keyword(s: &str) -> (r: Option<Form>)
    ensures
        r == keyword(s@),
{
    if str_eq(s, "define") {
        Some(Form::Define)
    } else if str_eq(s, "define/in-namespace") {
        Some(Form::DefineInNamespace)
    } else if str_eq(s, "namespace/symbol") {
        Some(Form::NamespaceSymbol)
    } else if str_eq(s, "namespace/as-list") {
        Some(Form::NamespaceAsList)
    } else if str_eq(s, "quote") {
        Some(Form::Quote)
    } else if str_eq(s, "eval-file") {
        Some(Form::EvalFile)
    } else if str_eq(s, "require") {
        Some(Form::Require)
    } else if str_eq(s, "deconst-fn") {
        Some(Form::DeconstFn)
    } else if str_eq(s, "if") {
        Some(Form::If)
    } else if str_eq(s, "let") {
        Some(Form::Let)
    } else if str_eq(s, "lambda") {
        Some(Form::Lambda)
    } else {
        None
    }
}

/// Whether every expression of `v` is a symbol.
fn symbols_only(v: &Vec<Expression>) -> (r: bool)
    ensures
        r == all_symbols(values(v@)),
{
    let mut i: usize = 0;
    while i < v.len()
        invariant
            i <= v.len(),
            forall|j: int| 0 <= j < i ==> (#[trigger] values(v@)[j]) is Symbol,
        decreases v.len() - i,
    {
        match &v[i] {
            Expression::Symbol(_) => {},
            _ => {
                assert(!(values(v@)[i as int] is Symbol));
                return false;
            },
        }
        i += 1;
    }
    true
}

impl Machine {
    /// The machine as a mathematical state.
    pub closed spec fn state(&self) -> State {
        State { control: self.control@, env: self.env@, stack: contexts(self.stack@) }
    }

    /// A machine that is about to evaluate `expr` in `env`.
    pub fn new(env: Environment, expr: Expression) -> (m: Machine)
        ensures
            m@ == State::start(env@, expr@),
    {
        let m = Machine { control: Control::Eval(expr), env, stack: Vec::new() };
        assert(contexts(m.stack@) =~= Seq::empty());
        m
    }

    /// Whether the machine runs, waits or is done.
    pub fn status(&self) -> (r: Status)
        ensures
            r == Status::Waiting <==> self@.control is Waiting,
            r == Status::Done <==> self@.control is Done,
            r == Status::Running <==> !self@.halted(),
    {
        match &self.control {
            Control::Waiting(_) => Status::Waiting,
            Control::Done(_) => Status::Done,
            _ => Status::Running,
        }
    }

    /// What the machine waits for, if it waits.
    pub fn request(&self) -> (r: Option<&Request>)
        ensures
            match r {
                Some(q) => self@.control == Phase::Waiting(q@),
                None => !(self@.control is Waiting),
            },
    {
        match &self.control {
            Control::Waiting(q) => Some(q),
            _ => None,
        }
    }

    /// The current environment.
    pub fn env(&self) -> (r: &Environment)
        ensures
            r@ == self@.env,
    {
        &self.env
    }

    /// Ends the evaluation: the result, if the machine is done, and the
    /// environment of the outermost evaluation.
    pub fn finish(self) -> (r: (Result<Expression, EvalError>, Environment))
        ensures
            (result_view(r.0), r.1@) == self@.outcome(),
    {
        let mut m = self;
        m.unwind();
        let Machine { control, env, stack } = m;
        match control {
            Control::Done(r) => (r, env),
            _ => (Err(EvalError::Unfinished), env),
        }
    }

    /// Drops every frame and goes back to the environment of the outermost
    /// evaluation.
    fn unwind(&mut self)
        ensures
            final(self).env@ == unwind(contexts(old(self).stack@), old(self).env@),
            final(self).stack@.len() == 0,
            final(self).control == old(self).control,
    {
        while self.stack.len() > 0
            invariant
                unwind(contexts(self.stack@), self.env@) == unwind(
                    contexts(old(self).stack@),
                    old(self).env@,
                ),
                self.control == old(self).control,
            decreases self.stack.len(),
        {
            let ghost before = contexts(self.stack@);
            let frame = self.stack.pop().unwrap();
            assert(contexts(self.stack@) =~= before.drop_last());
            assert(before.last() == frame@);
            match frame {
                Frame::Export { outer, name } => {
                    self.env = outer;
                },
                Frame::Body { rest, outer } => {
                    match outer {
                        Some(o) => {
                            self.env = o;
                        },
                        None => {},
                    }
                },
                _ => {},
            }
        }
    }

    /// Fails with `e`.
    fn fail(&mut self, e: EvalError)
        ensures
            final(self)@ == crate::semantics::fail(
                old(self).env@,
                contexts(old(self).stack@),
                e@,
            ),
    {
        self.unwind();
        self.control = Control::Done(Err(e));
        assert(contexts(self.stack@) =~= Seq::empty());
    }

    /// Hands `v` to the top of the stack.
    fn ret(&mut self, v: Expression)
        ensures
            final(self)@ == crate::semantics::ret(old(self).env@, contexts(old(self).stack@), v@),
    {
        self.control = Control::Return(v);
    }

    /// Goes on to evaluate `e`.
    fn go(&mut self, e: Expression)
        ensures
            final(self)@ == crate::semantics::go(old(self).env@, contexts(old(self).stack@), e@),
    {
        self.control = Control::Eval(e);
    }

    /// Puts `frame` on the stack.
    fn push(&mut self, frame: Frame)
        ensures
            final(self).env == old(self).env,
            final(self).control == old(self).control,
            contexts(final(self).stack@) == contexts(old(self).stack@).push(frame@),
    {
        self.stack.push(frame);
        assert(contexts(self.stack@) =~= contexts(old(self).stack@).push(frame@));
    }

    /// The symbol for the qualified name that `name` stands for, or `#f`.
    fn name_of(&self, name: &str) -> (r: Expression)
        ensures
            r@ == name_of(self.env@, name@),
    {
        match self.env.get_namespace_str(name) {
            Some(q) => Expression::Symbol(q),
            None => Expression::Bool(false),
        }
    }

    /// The namespaces in scope as a list of symbols.
    fn scope_list(&self) -> (r: Expression)
        ensures
            r@ == scope_list(self.env@),
    {
        let scopes = self.env.scopes();
        let mut out: Vec<Expression> = Vec::new();
        let mut i: usize = 0;
        while i < scopes.len()
            invariant
                i <= scopes.len(),
                out.len() == i,
                crate::env::namespaces(scopes@) == self.env@.scopes,
                forall|j: int|
                    0 <= j < i ==> out[j]@ == Value::Symbol(join(self.env@.scopes[j], sep())),
            decreases scopes.len() - i,
        {
            assert(self.env@.scopes[i as int] == scopes[i as int]@);
            out.push(Expression::Symbol(scopes[i].to_string()));
            i += 1;
        }
        assert(values(out@) =~= Seq::new(
            self.env@.scopes.len(),
            |i: int| Value::Symbol(join(self.env@.scopes[i], sep())),
        ));
        Expression::List(out)
    }

    /// Starts the sequence `body` in `local`.
    fn enter(&mut self, local: Environment, body: Vec<Expression>, default: Expression)
        ensures
            final(self)@ == crate::semantics::enter(
                old(self).env@,
                contexts(old(self).stack@),
                local@,
                values(body@),
                default@,
            ),
    {
        if body.len() == 0 {
            self.ret(default);
        } else {
            let mut rest = body;
            let first = take_first(&mut rest);
            let mut outer = local;
            core::mem::swap(&mut self.env, &mut outer);
            self.push(Frame::Body { rest, outer: Some(outer) });
            self.go(first);
        }
    }

    /// Starts the sequence `forms` in the current environment.
    fn sequence(&mut self, forms: Vec<Expression>, default: Expression)
        ensures
            final(self)@ == crate::semantics::sequence(
                old(self).env@,
                contexts(old(self).stack@),
                values(forms@),
                default@,
            ),
    {
        if forms.len() == 0 {
            self.ret(default);
        } else {
            let mut rest = forms;
            let first = take_first(&mut rest);
            self.push(Frame::Body { rest, outer: None });
            self.go(first);
        }
    }

    /// Calls `callee` on the evaluated arguments.
    #[verifier::loop_isolation(false)]
    fn invoke(&mut self, callee: Expression, name: String, args: Vec<Expression>)
        ensures
            final(self)@ == crate::semantics::invoke(
                old(self).env@,
                contexts(old(self).stack@),
                callee@,
                name@,
                values(args@),
            ),
    {
        match callee {
            Expression::Func(native) => {
                match builtin(native, args.as_slice()) {
                    Some(Ok(v)) => {
                        self.ret(v);
                    },
                    Some(Err(m)) => {
                        self.fail(EvalError::Primitive(m));
                    },
                    None => {
                        self.control = Control::Waiting(Request::Call(native, args));
                    },
                }
            },
            Expression::Function(proc) => {
                let params = copy_expressions(&proc.params);
                let body = copy_expressions(&proc.body);
                let mut local = proc.env.copy();
                let ghost closure = proc@;
                local.insert(name.as_str(), Expression::Function(proc));
                let ghost first = local@;
                let mut i: usize = 0;
                while i < params.len() && i < args.len()
                    invariant
                        i <= params.len(),
                        i <= args.len(),
                        bind_params(first, values(params@), values(args@), 0) == bind_params(
                            local@,
                            values(params@),
                            values(args@),
                            i as int,
                        ),
                        self == old(self),
                    decreases params.len() - i,
                {
                    match &params[i] {
                        Expression::Symbol(p) => {
                            assert(values(params@)[i as int] == Value::Symbol(p@));
                            local.insert(p.as_str(), args[i].copy());
                        },
                        _ => {
                            assert(!(values(params@)[i as int] is Symbol));
                            self.fail(EvalError::InvalidParameter);
                            return ;
                        },
                    }
                    i += 1;
                }
                self.enter(local, body, Expression::Bool(false));
            },
            _ => {
                self.fail(EvalError::UndefinedFunction(name));
            },
        }
    }

    /// Evaluates the remaining argument expressions, then calls `callee`.
    fn collect(
        &mut self,
        callee: Expression,
        name: String,
        done: Vec<Expression>,
        rest: Vec<Expression>,
    )
        ensures
            final(self)@ == crate::semantics::collect(
                old(self).env@,
                contexts(old(self).stack@),
                callee@,
                name@,
                values(done@),
                values(rest@),
            ),
    {
        if rest.len() == 0 {
            self.invoke(callee, name, done);
        } else {
            let mut rest = rest;
            let first = take_first(&mut rest);
            self.push(Frame::Args { callee, name, done, rest });
            self.go(first);
        }
    }

    /// An ordinary call.
    fn apply(&mut self, items: Vec<Expression>)
        requires
            items.len() > 0,
            items[0]@ is Symbol,
        ensures
            final(self)@ == crate::semantics::apply(
                old(self).env@,
                contexts(old(self).stack@),
                items[0]@->Symbol_0,
                values(items@).skip(1),
            ),
    {
        let mut args = items;
        let head = take_first(&mut args);
        match head {
            Expression::Symbol(name) => {
                let found = match self.env.get(name.as_str()) {
                    Some(c) => match c {
                        Expression::Func(_) => Some(c.copy()),
                        Expression::Function(_) => Some(c.copy()),
                        _ => None,
                    },
                    None => None,
                };
                match found {
                    Some(callee) => {
                        assert(values(Seq::<Expression>::empty()) =~= Seq::<Value>::empty());
                        self.collect(callee, name, Vec::new(), args);
                    },
                    None => {
                        self.fail(EvalError::UndefinedFunction(name));
                    },
                }
            },
            _ => {
                assert(false);
            },
        }
    }

    /// `(lambda (p…) body…)`.
    fn eval_lambda(&mut self, items: Vec<Expression>)
        ensures
            final(self)@ == crate::semantics::eval_lambda(
                old(self).env@,
                contexts(old(self).stack@),
                values(items@),
            ),
    {
        if items.len() < 3 {
            self.fail(EvalError::InvalidSpecialForm(Form::Lambda));
            return ;
        }
        let mut items = items;
        let ghost all = values(items@);
        let body = take_tail(&mut items, 2);
        let target = take_last(&mut items);
        assert(target@ == all[1]);
        match target {
            Expression::List(params) => {
                if symbols_only(&params) {
                    let env = self.env.copy();
                    self.ret(Expression::Function(Procedure { params, body, env }));
                } else {
                    self.fail(EvalError::InvalidParameter);
                }
            },
            _ => {
                self.fail(EvalError::InvalidSpecialForm(Form::Lambda));
            },
        }
    }

    /// `(define name expr)` and `(define (name p…) body…)`.
    fn eval_define(&mut self, items: Vec<Expression>)
        ensures
            final(self)@ == crate::semantics::eval_define(
                old(self).env@,
                contexts(old(self).stack@),
                values(items@),
            ),
    {
        if items.len() < 3 {
            self.fail(EvalError::InvalidSpecialForm(Form::Define));
            return ;
        }
        let mut items = items;
        let ghost all = values(items@);
        let mut body = take_tail(&mut items, 2);
        let target = take_last(&mut items);
        assert(target@ == all[1]);
        match target {
            Expression::List(head) => {
                let mut head = head;
                if head.len() == 0 {
                    self.fail(EvalError::InvalidSpecialForm(Form::Define));
                    return ;
                }
                let ghost heads = values(head@);
                let params = take_tail(&mut head, 1);
                let first = take_last(&mut head);
                assert(first@ == heads[0]);
                match first {
                    Expression::Symbol(name) => {
                        let mut form: Vec<Expression> = Vec::new();
                        form.push(Expression::symbol("lambda"));
                        form.push(Expression::List(params));
                        form.append(&mut body);
                        assert(values(form@) =~= seq![
                            Value::Symbol("lambda"@),
                            Value::List(heads.skip(1)),
                        ] + all.skip(2));
                        self.push(Frame::Define { name });
                        self.go(Expression::List(form));
                    },
                    _ => {
                        self.fail(EvalError::InvalidSpecialForm(Form::Define));
                    },
                }
            },
            Expression::Symbol(name) => {
                let value = take_first(&mut body);
                assert(value@ == all[2]);
                self.push(Frame::Define { name });
                self.go(value);
            },
            _ => {
                self.fail(EvalError::InvalidSpecialForm(Form::Define));
            },
        }
    }

    /// `(define/in-namespace ns (define …))`.
    fn eval_define_namespace(&mut self, items: Vec<Expression>)
        ensures
            final(self)@ == crate::semantics::eval_define_namespace(
                old(self).env@,
                contexts(old(self).stack@),
                values(items@),
            ),
    {
        if items.len() < 3 {
            self.fail(EvalError::InvalidSpecialForm(Form::DefineInNamespace));
            return ;
        }
        let ghost all = values(items@);
        let ns = match &items[1] {
            Expression::List(_) => {
                self.eval_define(items);
                return ;
            },
            Expression::Symbol(ns) => ns.clone(),
            _ => {
                assert(!(all[1] is List) && !(all[1] is Symbol));
                self.fail(EvalError::InvalidSpecialForm(Form::DefineInNamespace));
                return ;
            },
        };
        assert(all[1] == Value::Symbol(ns@));
        let mut items = items;
        let _ = take_tail(&mut items, 3);
        let rhs = take_last(&mut items);
        assert(rhs@ == all[2]);
        match rhs {
            Expression::List(inner) => {
                match rewrite_define(ns.as_str(), inner) {
                    Some((full, rewritten)) => {
                        let mut inner_env = self.env.copy().with_scope(
                            Namespace::from_str(ns.as_str()),
                        );
                        core::mem::swap(&mut self.env, &mut inner_env);
                        self.push(Frame::Export { outer: inner_env, name: full });
                        self.go(Expression::List(rewritten));
                    },
                    None => {
                        self.fail(EvalError::InvalidSpecialForm(Form::DefineInNamespace));
                    },
                }
            },
            _ => {
                self.fail(EvalError::InvalidSpecialForm(Form::DefineInNamespace));
            },
        }
    }

    /// `(namespace/symbol x)`.
    fn eval_namespace_symbol(&mut self, items: Vec<Expression>)
        ensures
            final(self)@ == crate::semantics::eval_namespace_symbol(
                old(self).env@,
                contexts(old(self).stack@),
                values(items@),
            ),
    {
        if items.len() < 2 {
            self.fail(EvalError::InvalidSpecialForm(Form::NamespaceSymbol));
            return ;
        }
        let mut items = items;
        let ghost all = values(items@);
        let _ = take_tail(&mut items, 2);
        let target = take_last(&mut items);
        assert(target@ == all[1]);
        match target {
            Expression::Symbol(s) => {
                let v = self.name_of(s.as_str());
                self.ret(v);
            },
            other => {
                self.push(Frame::Resolve);
                self.go(other);
            },
        }
    }

    /// `(quote x)`.
    fn eval_quote(&mut self, items: Vec<Expression>)
        ensures
            final(self)@ == crate::semantics::eval_quote(
                old(self).env@,
                contexts(old(self).stack@),
                values(items@),
            ),
    {
        if items.len() < 2 {
            self.fail(EvalError::InvalidSpecialForm(Form::Quote));
            return ;
        }
        let mut items = items;
        let ghost all = values(items@);
        let _ = take_tail(&mut items, 2);
        let target = take_last(&mut items);
        assert(target@ == all[1]);
        self.ret(target);
    }

    /// `(if cond then else)`.
    fn eval_if(&mut self, items: Vec<Expression>)
        ensures
            final(self)@ == crate::semantics::eval_if(
                old(self).env@,
                contexts(old(self).stack@),
                values(items@),
            ),
    {
        if items.len() != 4 {
            self.fail(EvalError::InvalidSpecialForm(Form::If));
            return ;
        }
        let mut items = items;
        let ghost all = values(items@);
        let otherwise = take_last(&mut items);
        let then = take_last(&mut items);
        let cond = take_last(&mut items);
        assert(otherwise@ == all[3] && then@ == all[2] && cond@ == all[1]);
        self.push(Frame::Branch { then, otherwise });
        self.go(cond);
    }

    /// Goes on with the bindings of a `let`.
    fn bind_next(&mut self, local: Environment, bs: Vec<Expression>, body: Vec<Expression>)
        ensures
            final(self)@ == crate::semantics::bind_next(
                old(self).env@,
                contexts(old(self).stack@),
                local@,
                values(bs@),
                values(body@),
            ),
    {
        if bs.len() == 0 {
            self.enter(local, body, Expression::Bool(false));
            return ;
        }
        let mut rest = bs;
        let first = take_first(&mut rest);
        match first {
            Expression::List(pair) => {
                let mut pair = pair;
                if pair.len() != 2 {
                    self.fail(EvalError::InvalidSpecialForm(Form::Let));
                    return ;
                }
                let ghost both = values(pair@);
                let value = take_last(&mut pair);
                let target = take_last(&mut pair);
                assert(value@ == both[1] && target@ == both[0]);
                match target {
                    Expression::Symbol(name) => {
                        self.push(Frame::Bind { name, local, rest, body });
                        self.go(value);
                    },
                    _ => {
                        self.fail(EvalError::InvalidSpecialForm(Form::Let));
                    },
                }
            },
            _ => {
                self.fail(EvalError::InvalidSpecialForm(Form::Let));
            },
        }
    }

    /// `(let ((name value)…) body…)`.
    fn eval_let(&mut self, items: Vec<Expression>)
        ensures
            final(self)@ == crate::semantics::eval_let(
                old(self).env@,
                contexts(old(self).stack@),
                values(items@),
            ),
    {
        if items.len() < 3 {
            self.fail(EvalError::InvalidSpecialForm(Form::Let));
            return ;
        }
        let mut items = items;
        let ghost all = values(items@);
        let body = take_tail(&mut items, 2);
        let target = take_last(&mut items);
        assert(target@ == all[1]);
        match target {
            Expression::List(bs) => {
                let local = self.env.copy();
                self.bind_next(local, bs, body);
            },
            _ => {
                self.fail(EvalError::InvalidSpecialForm(Form::Let));
            },
        }
    }

    /// The symbol operand of a form with exactly one operand.
    fn single_symbol(items: Vec<Expression>) -> (r: Option<String>)
        ensures
            match r {
                Some(s) => values(items@).len() == 2 && values(items@)[1] == Value::Symbol(s@),
                None => !(values(items@).len() == 2 && values(items@)[1] is Symbol),
            },
    {
        if items.len() != 2 {
            return None;
        }
        let mut items = items;
        let ghost all = values(items@);
        let target = take_last(&mut items);
        assert(target@ == all[1]);
        match target {
            Expression::Symbol(s) => Some(s),
            _ => None,
        }
    }

    /// `(require ns)`.
    fn eval_require(&mut self, items: Vec<Expression>)
        ensures
            final(self)@ == crate::semantics::eval_require(
                old(self).env@,
                contexts(old(self).stack@),
                values(items@),
            ),
    {
        match Self::single_symbol(items) {
            Some(sym) => {
                self.env.add_scope(Namespace::from_str(sym.as_str()));
                self.ret(Expression::Bool(true));
            },
            None => {
                self.fail(EvalError::InvalidSpecialForm(Form::Require));
            },
        }
    }

    /// `(eval-file path)`.
    fn eval_file(&mut self, items: Vec<Expression>)
        ensures
            final(self)@ == crate::semantics::eval_file(
                old(self).env@,
                contexts(old(self).stack@),
                values(items@),
            ),
    {
        match Self::single_symbol(items) {
            Some(path) => {
                self.control = Control::Waiting(Request::Load(path));
            },
            None => {
                self.fail(EvalError::InvalidSpecialForm(Form::EvalFile));
            },
        }
    }

    /// `(deconst-fn name)`.
    fn eval_deconst_fn(&mut self, items: Vec<Expression>)
        ensures
            final(self)@ == crate::semantics::eval_deconst_fn(
                old(self).env@,
                contexts(old(self).stack@),
                values(items@),
            ),
    {
        match Self::single_symbol(items) {
            Some(name) => {
                let text = match self.env.get(name.as_str()) {
                    Some(v) => Some(v.to_string()),
                    None => None,
                };
                match text {
                    Some(t) => {
                        self.control = Control::Waiting(Request::Print(t));
                    },
                    None => {
                        self.fail(EvalError::UndefinedSymbol(name));
                    },
                }
            },
            None => {
                self.fail(EvalError::InvalidSpecialForm(Form::DeconstFn));
            },
        }
    }

    /// Evaluates a list.
    fn eval_list(&mut self, items: Vec<Expression>)
        ensures
            final(self)@ == crate::semantics::eval_list(
                old(self).env@,
                contexts(old(self).stack@),
                values(items@),
            ),
    {
        if items.len() == 0 {
            self.fail(EvalError::InvalidForm);
            return ;
        }
        let kind: Option<Option<Form>> = match &items[0] {
            Expression::Symbol(head) => Some(parse_keyword(head.as_str())),
            _ => None,
        };
        match kind {
            None => {
                assert(!(values(items@)[0] is Symbol));
                self.fail(EvalError::InvalidForm);
            },
            Some(Some(Form::Define)) => self.eval_define(items),
            Some(Some(Form::DefineInNamespace)) => self.eval_define_namespace(items),
            Some(Some(Form::NamespaceSymbol)) => self.eval_namespace_symbol(items),
            Some(Some(Form::NamespaceAsList)) => {
                let v = self.scope_list();
                self.ret(v);
            },
            Some(Some(Form::Quote)) => self.eval_quote(items),
            Some(Some(Form::EvalFile)) => self.eval_file(items),
            Some(Some(Form::Require)) => self.eval_require(items),
            Some(Some(Form::DeconstFn)) => self.eval_deconst_fn(items),
            Some(Some(Form::If)) => self.eval_if(items),
            Some(Some(Form::Let)) => self.eval_let(items),
            Some(Some(Form::Lambda)) => self.eval_lambda(items),
            Some(None) => self.apply(items),
        }
    }

    /// Evaluates an expression.
    fn eval(&mut self, expr: Expression)
        ensures
            final(self)@ == crate::semantics::eval(
                old(self).env@,
                contexts(old(self).stack@),
                expr@,
            ),
    {
        match expr {
            Expression::Symbol(s) => {
                let found = match self.env.get(s.as_str()) {
                    Some(x) => Some(x.copy()),
                    None => None,
                };
                match found {
                    Some(v) => self.ret(v),
                    None => self.fail(EvalError::UndefinedSymbol(s)),
                }
            },
            Expression::List(items) => self.eval_list(items),
            Expression::Function(_) => self.fail(EvalError::UnexpectedFunction),
            other => self.ret(other),
        }
    }

    /// Hands `value` to `frame`, which was on top of the stack.
    fn resume(&mut self, frame: Frame, value: Expression)
        ensures
            final(self)@ == crate::semantics::resume(
                old(self).env@,
                contexts(old(self).stack@),
                frame@,
                value@,
            ),
    {
        match frame {
            Frame::Define { name } => {
                self.env.insert(name.as_str(), value);
                self.ret(Expression::Symbol(name));
            },
            Frame::Export { outer, name } => {
                let found = match self.env.get(name.as_str()) {
                    Some(b) => Some(b.copy()),
                    None => None,
                };
                self.env = outer;
                match found {
                    Some(bound) => {
                        self.env.insert(name.as_str(), bound);
                        self.ret(Expression::Symbol(name));
                    },
                    None => {
                        self.fail(EvalError::NoBinding(name));
                    },
                }
            },
            Frame::Resolve => {
                match value {
                    Expression::Symbol(s) => {
                        let v = self.name_of(s.as_str());
                        self.ret(v);
                    },
                    _ => {
                        self.ret(Expression::Bool(false));
                    },
                }
            },
            Frame::Branch { then, otherwise } => {
                match value {
                    Expression::Bool(b) => {
                        if b {
                            self.go(then);
                        } else {
                            self.go(otherwise);
                        }
                    },
                    _ => {
                        self.fail(EvalError::InvalidCondition);
                    },
                }
            },
            Frame::Bind { name, local, rest, body } => {
                let mut local = local;
                local.insert(name.as_str(), value);
                self.bind_next(local, rest, body);
            },
            Frame::Args { callee, name, done, rest } => {
                let mut done = done;
                let ghost before = values(done@);
                done.push(value);
                assert(values(done@) =~= before.push(value@));
                self.collect(callee, name, done, rest);
            },
            Frame::Body { rest, outer } => {
                if rest.len() == 0 {
                    match outer {
                        Some(o) => {
                            self.env = o;
                        },
                        None => {},
                    }
                    self.ret(value);
                } else {
                    let mut rest = rest;
                    let first = take_first(&mut rest);
                    self.push(Frame::Body { rest, outer });
                    self.go(first);
                }
            },
        }
    }

    /// One transition. A machine that waits or is done stays as it is.
    pub fn step(&mut self)
        ensures
            final(self)@ == old(self)@.step(),
    {
        let mut control = Control::Done(Err(EvalError::Unfinished));
        core::mem::swap(&mut self.control, &mut control);
        match control {
            Control::Eval(expr) => {
                self.eval(expr);
            },
            Control::Return(value) => {
                if self.stack.len() == 0 {
                    self.control = Control::Done(Ok(value));
                } else {
                    let ghost before = contexts(self.stack@);
                    let frame = self.stack.pop().unwrap();
                    assert(contexts(self.stack@) =~= before.drop_last());
                    assert(before.last() == frame@);
                    self.resume(frame, value);
                }
            },
            other => {
                self.control = other;
            },
        }
    }

    /// Up to `limit` transitions, stopping as soon as the machine waits or
    /// is done. Returns the number of transitions made.
    pub fn run(&mut self, limit: usize) -> (n: usize)
        ensures
            n <= limit,
            final(self)@ == old(self)@.steps(n as nat),
            n < limit ==> final(self)@.halted(),
            forall|k: nat| k < n ==> !(#[trigger] old(self)@.steps(k)).halted(),
    {
        let mut n: usize = 0;
        while n < limit
            invariant
                n <= limit,
                self@ == old(self)@.steps(n as nat),
                forall|k: nat| k < n ==> !(#[trigger] old(self)@.steps(k)).halted(),
            decreases limit - n,
        {
            match self.status() {
                Status::Running => {},
                _ => {
                    return n;
                },
            }
            proof {
                lemma_steps_next(old(self)@, n as nat);
            }
            self.step();
            n += 1;
        }
        n
    }

    /// Goes on after the host's reply. A reply that does not fit what the
    /// machine waits for changes nothing.
    pub fn reply(&mut self, reply: Reply)
        ensures
            final(self)@ == old(self)@.answer(reply@),
    {
        let kind: u8 = match &self.control {
            Control::Waiting(Request::Call(_, _)) => 1,
            Control::Waiting(Request::Load(_)) => 2,
            Control::Waiting(Request::Print(_)) => 3,
            _ => 0,
        };
        match reply {
            Reply::Value(v) => {
                if kind == 1 {
                    self.ret(v);
                }
            },
            Reply::Forms(fs) => {
                if kind == 2 {
                    self.sequence(fs, Expression::Bool(true));
                }
            },
            Reply::Printed => {
                if kind == 3 {
                    self.ret(Expression::Bool(true));
                }
            },
            Reply::Failure(m) => {
                if kind == 1 {
                    self.fail(EvalError::Primitive(m));
                } else if kind == 2 {
                    self.fail(EvalError::ParseFailure(m));
                }
            },
        }
    }
}

/// The state after `n + 1` transitions is the state after `n` of them, one
/// transition further.
pub proof fn lemma_steps_next(s: State, n: nat)
    ensures
        s.steps(n + 1) == s.steps(n).step(),
    decreases n,
{
    reveal_with_fuel(State::steps, 2);
    if n > 0 {
        lemma_steps_next(s.step(), (n - 1) as nat);
    }
}

/// Whether a machine in state `s` can get to state `t` in `n` moves with the
/// host `host`: each move is a transition of a machine that runs, or an
/// answer that the host can give to the request of a machine that waits.
pub open spec fn driven<H: Fn(&Request) -> Reply>(host: H, s: State, t: State, n: nat) -> bool
    decreases n,
{
    if n == 0 {
        s == t
    } else {
        ||| !s.halted() && driven(host, s.step(), t, (n - 1) as nat)
        ||| s.control is Waiting && exists|q: Request, a: Reply|
            served(host, s, q, a) && driven(host, s.answer(a@), t, (n - 1) as nat)
    }
}

/// Whether `q` is the request of the waiting state `s` and `a` a reply that
/// `host` can give to it.
pub open spec fn served<H: Fn(&Request) -> Reply>(host: H, s: State, q: Request, a: Reply) -> bool {
    s.control == Phase::Waiting(q@) && call_ensures(host, (&q,), a)
}

/// A machine that got to a running state gets one transition further in
/// one more move.
pub proof fn lemma_driven_step<H: Fn(&Request) -> Reply>(host: H, s: State, t: State, n: nat)
    requires
        driven(host, s, t, n),
        !t.halted(),
    ensures
        driven(host, s, t.step(), n + 1),
    decreases n,
{
    if n == 0 {
        assert(driven(host, s.step(), t.step(), 0));
    } else if !s.halted() && driven(host, s.step(), t, (n - 1) as nat) {
        lemma_driven_step(host, s.step(), t, (n - 1) as nat);
    } else {
        let (q, a) = choose|q: Request, a: Reply|
            served(host, s, q, a) && driven(host, s.answer(a@), t, (n - 1) as nat);
        lemma_driven_step(host, s.answer(a@), t, (n - 1) as nat);
        assert(served(host, s, q, a) && driven(host, s.answer(a@), t.step(), n as nat));
    }
}

/// A machine that got to a waiting state gets to the state after the
/// host's reply in one more move.
pub proof fn lemma_driven_reply<H: Fn(&Request) -> Reply>(
    host: H,
    s: State,
    t: State,
    n: nat,
    request: Request,
    reply: Reply,
)
    requires
        driven(host, s, t, n),
        served(host, t, request, reply),
    ensures
        driven(host, s, t.answer(reply@), n + 1),
    decreases n,
{
    if n == 0 {
        assert(driven(host, s.answer(reply@), t.answer(reply@), 0));
        assert(served(host, s, request, reply) && driven(
            host,
            s.answer(reply@),
            t.answer(reply@),
            0,
        ));
    } else if !s.halted() && driven(host, s.step(), t, (n - 1) as nat) {
        lemma_driven_reply(host, s.step(), t, (n - 1) as nat, request, reply);
    } else {
        let (q, a) = choose|q: Request, a: Reply|
            served(host, s, q, a) && driven(host, s.answer(a@), t, (n - 1) as nat);
        lemma_driven_reply(host, s.answer(a@), t, (n - 1) as nat, request, reply);
        assert(served(host, s, q, a) && driven(host, s.answer(a@), t.answer(reply@), n as nat));
    }
}

/// Moves add up: a machine that gets from `s` to `t` and from `t` to `u`
/// gets from `s` to `u` in the moves of both.
pub proof fn lemma_driven_chain<H: Fn(&Request) -> Reply>(
    host: H,
    s: State,
    t: State,
    u: State,
    n: nat,
    m: nat,
)
    requires
        driven(host, s, t, n),
        driven(host, t, u, m),
    ensures
        driven(host, s, u, n + m),
    decreases n,
{
    if n == 0 {
    } else if !s.halted() && driven(host, s.step(), t, (n - 1) as nat) {
        lemma_driven_chain(host, s.step(), t, u, (n - 1) as nat, m);
    } else {
        let (q, a) = choose|q: Request, a: Reply|
            served(host, s, q, a) && driven(host, s.answer(a@), t, (n - 1) as nat);
        lemma_driven_chain(host, s.answer(a@), t, u, (n - 1) as nat, m);
        assert(served(host, s, q, a) && driven(host, s.answer(a@), u, (n - 1 + m) as nat));
    }
}

/// As long as the machine does not wait, the host has no say: a machine
/// that gets from `s` to `t` in `n` moves without waiting on the way got
/// there by `n` transitions.
pub proof fn lemma_driven_alone<H: Fn(&Request) -> Reply>(host: H, s: State, t: State, n: nat)
    requires
        driven(host, s, t, n),
        forall|k: nat| k < n ==> !((#[trigger] s.steps(k)).control is Waiting),
    ensures
        t == s.steps(n),
    decreases n,
{
    if n > 0 {
        assert(s.steps(0) == s);
        assert(!(s.control is Waiting));
        assert forall|k: nat| k < n - 1 implies !((#[trigger] s.step().steps(k)).control
            is Waiting) by {
            assert(s.steps(k + 1) == s.step().steps(k));
        }
        lemma_driven_alone(host, s.step(), t, (n - 1) as nat);
    }
}

/// Evaluates `expr` in `env` with the help of `host`, in at most `limit`
/// moves: the machine runs, `host` answers each of its requests, and `env`
/// takes the environment of the outermost evaluation, with the bindings
/// and scopes that were added. An evaluation that is not done after
/// `limit` moves is given up as unfinished.
pub fn eval<H: Fn(&Request) -> Reply>(
    expr: Expression,
    env: &mut Environment,
    host: H,
    limit: usize,
) -> (r: Result<Expression, EvalError>)
    requires
        forall|q: &Request| #[trigger] call_requires(host, (q,)),
    ensures
        exists|end: State, n: nat|
            n <= limit && driven(host, State::start(old(env)@, expr@), end, n) && (
                result_view(r),
                final(env)@,
            ) == end.outcome() && (n < limit ==> end.control is Done),
{
    let mut taken = Environment::empty();
    core::mem::swap(env, &mut taken);
    let mut machine = Machine::new(taken, expr);
    let ghost start = machine@;
    let mut moves: usize = 0;
    while moves < limit
        invariant
            moves <= limit,
            driven(host, start, machine@, moves as nat),
            forall|q: &Request| #[trigger] call_requires(host, (q,)),
        ensures
            moves < limit ==> machine@.control is Done,
        decreases limit - moves,
    {
        match machine.status() {
            Status::Done => {
                break ;
            },
            Status::Running => {
                proof {
                    lemma_driven_step(host, start, machine@, moves as nat);
                }
                machine.step();
            },
            Status::Waiting => {
                let ghost before = machine@;
                let reply = match machine.request() {
                    Some(q) => {
                        let reply = host(q);
                        proof {
                            assert(served(host, before, *q, reply));
                            lemma_driven_reply(host, start, before, moves as nat, *q, reply);
                        }
                        reply
                    },
                    None => Reply::Printed,
                };
                machine.reply(reply);
            },
        }
        moves += 1;
    }
    let ghost end = machine@;
    let (result, after) = machine.finish();
    *env = after;
    assert(driven(host, start, end, moves as nat) && (result_view(result), env@) == end.outcome()
        && (moves < limit ==> end.control is Done));
    result
}

/// The name `ns::name` as a string.
fn qualified(ns: &str, name: &str) -> (r: String)
    ensures
        r@ == qualify(ns@, name@),
{
    proof {
        reveal_strlit("::");
        assert("::"@ =~= sep());
    }
    let mut out = ns.to_owned();
    out.append("::");
    out.append(name);
    out
}

/// The qualified name that the `define` form `inner` binds inside `ns`, and
/// the form rewritten to bind that name; `None` if `inner` is no such form.
fn rewrite_define(ns: &str, inner: Vec<Expression>) -> (r: Option<(String, Vec<Expression>)>)
    ensures
        match r {
            Some((full, rewritten)) => values(inner@).len() > 0 && values(inner@)[0]
                == Value::Symbol("define"@) && qualified_define(ns@, values(inner@)) == Some(
                (full@, values(rewritten@)),
            ),
            None => !(values(inner@).len() > 0 && values(inner@)[0] == Value::Symbol("define"@))
                || qualified_define(ns@, values(inner@)) is None,
        },
{
    if inner.len() < 2 {
        return None;
    }
    let is_define = match &inner[0] {
        Expression::Symbol(s) => str_eq(s.as_str(), "define"),
        _ => false,
    };
    if !is_define {
        return None;
    }
    let mut inner = inner;
    let ghost all = values(inner@);
    let mut tail = take_tail(&mut inner, 2);
    let target = take_last(&mut inner);
    assert(target@ == all[1]);
    match target {
        Expression::List(head) => {
            let mut head = head;
            if head.len() == 0 {
                return None;
            }
            let ghost heads = values(head@);
            let mut params = take_tail(&mut head, 1);
            let first = take_last(&mut head);
            assert(first@ == heads[0]);
            match first {
                Expression::Symbol(name) => {
                    let full = qualified(ns, name.as_str());
                    let mut new_head: Vec<Expression> = Vec::new();
                    let symbol = Expression::Symbol(full.clone());
                    proof {
                        lemma_values_push(new_head@, symbol);
                        lemma_values_concat(new_head@.push(symbol), params@);
                    }
                    new_head.push(symbol);
                    new_head.append(&mut params);
                    assert(values(new_head@) =~= heads.update(0, Value::Symbol(full@)));
                    let target = Expression::List(new_head);
                    proof {
                        lemma_values_push(inner@, target);
                        lemma_values_concat(inner@.push(target), tail@);
                    }
                    inner.push(target);
                    inner.append(&mut tail);
                    assert(values(inner@) =~= all.update(
                        1,
                        Value::List(heads.update(0, Value::Symbol(full@))),
                    ));
                    Some((full, inner))
                },
                _ => None,
            }
        },
        Expression::Symbol(name) => {
            let full = qualified(ns, name.as_str());
            let target = Expression::Symbol(full.clone());
            proof {
                lemma_values_push(inner@, target);
                lemma_values_concat(inner@.push(target), tail@);
            }
            inner.push(target);
            inner.append(&mut tail);
            assert(values(inner@) =~= all.update(1, Value::Symbol(full@)));
            Some((full, inner))
        },
        _ => None,
    }
}

} // verus!
