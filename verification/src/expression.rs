//! The value and syntax tree of the language, the environment that closures
//! capture, and the mathematical model of both.

use crate::env::{Environment, Scope};
use crate::text::{join, join_strings, strings_view};
use vstd::prelude::*;

verus! {

/// A primitive operation. Those that work on lists, strings and booleans
/// are carried out by this library; input and output, arithmetic and
/// numeric comparison are asked of the host.
#[derive(Debug, Clone, Copy, PartialEq, Eq, PartialOrd, Structural)]
pub enum Native {
    Not,
    Car,
    Cdr,
    Cons,
    Append,
    List,
    IsEmpty,
    Len,
    AsList,
    FromList,
    Format,
    Panic,
    Println,
    Exit,
    Eq,
    Ne,
    Gt,
    Lt,
    Ge,
    Le,
    Add,
    Sub,
    Mul,
    Div,
    Rem,
    Pow,
    Ash,
}

/// A value of the language, which is also its syntax tree.
///
/// A number is held as its decimal text: the library prints numbers and
/// hands them on, and leaves all arithmetic to the host.
#[derive(Debug, PartialEq, PartialOrd)]
pub enum Expression {
    Bool(bool),
    Number(String),
    Symbol(String),
    String(String),
    List(Vec<Expression>),
    Func(Native),
    Function(Procedure),
    Nil,
    Quoted(Box<Expression>),
}

/// A user-defined function: parameter names, body, and the environment as
/// it was when the function was made.
#[derive(Debug, PartialEq, PartialOrd)]
pub struct Procedure {
    pub params: Vec<Expression>,
    pub body: Vec<Expression>,
    pub env: Environment,
}

/// The mathematical value of an [`Expression`].
pub enum Value {
    Bool(bool),
    Number(Seq<char>),
    Symbol(Seq<char>),
    Str(Seq<char>),
    List(Seq<Value>),
    Func(Native),
    Function(Closure),
    Nil,
    Quoted(Box<Value>),
}

/// The mathematical value of a [`Procedure`].
pub struct Closure {
    pub params: Seq<Value>,
    pub body: Seq<Value>,
    pub env: Scope,
}

/// The values of a sequence of expressions.
pub open spec fn values(s: Seq<Expression>) -> Seq<Value>
    decreases s,
{
    Seq::new(
        s.len(),
        |i: int|
            if 0 <= i < s.len() {
                s[i].value()
            } else {
                Value::Nil
            },
    )
}

impl Expression {
    /// The expression as a mathematical value.
    pub open spec fn value(&self) -> Value
        decreases self,
    {
        match self {
            Expression::Bool(b) => Value::Bool(*b),
            Expression::Number(n) => Value::Number(n@),
            Expression::Symbol(s) => Value::Symbol(s@),
            Expression::String(s) => Value::Str(s@),
            Expression::List(v) => Value::List(values(v@)),
            Expression::Func(f) => Value::Func(*f),
            Expression::Function(p) => Value::Function(p.closure()),
            Expression::Nil => Value::Nil,
            Expression::Quoted(b) => Value::Quoted(Box::new((**b).value())),
        }
    }
}

impl Procedure {
    /// The procedure as a mathematical value.
    pub open spec fn closure(&self) -> Closure
        decreases self,
    {
        Closure { params: values(self.params@), body: values(self.body@), env: self.env.scope() }
    }
}

/// The values of `v` are those of its elements, one for one.
pub broadcast proof fn lemma_values(v: Seq<Expression>)
    ensures
        (#[trigger] values(v)).len() == v.len(),
        forall|i: int| 0 <= i < v.len() ==> (#[trigger] values(v)[i]) == v[i]@,
{
}

/// The value of a procedure is made of the values of its parts.
pub broadcast proof fn lemma_closure(p: Procedure)
    ensures
        #[trigger] p.closure() == (Closure {
            params: values(p.params@),
            body: values(p.body@),
            env: p.env@,
        }),
{
}

/// The value of a function expression is the value of its procedure.
pub broadcast proof fn lemma_function(p: Procedure)
    ensures
        #[trigger] Expression::Function(p).value() == Value::Function(p.closure()),
{
}

/// The value of a list expression is the list of the values of its items.
pub broadcast proof fn lemma_list(v: Vec<Expression>)
    ensures
        #[trigger] Expression::List(v).value() == Value::List(values(v@)),
{
}

/// The values of a concatenation are the concatenation of the values.
pub proof fn lemma_values_concat(a: Seq<Expression>, b: Seq<Expression>)
    ensures
        values(a + b) == values(a) + values(b),
{
    assert(values(a + b) =~= values(a) + values(b));
}

/// The values of a sequence with one more expression are the values of the
/// sequence with the value of that expression.
pub proof fn lemma_values_push(a: Seq<Expression>, x: Expression)
    ensures
        values(a.push(x)) == values(a).push(x@),
{
    assert(values(a.push(x)) =~= values(a).push(x@));
}

/// The facts that unfold the value of an expression one level.
pub broadcast group group_values {
    lemma_values,
    lemma_closure,
    lemma_function,
    lemma_list,
}

/// A copy of `v` with the same values.
#[verifier::loop_isolation(false)]
pub fn copy_expressions(v: &Vec<Expression>) -> (r: Vec<Expression>)
    ensures
        values(r@) == values(v@),
    decreases v,
{
    let mut out: Vec<Expression> = Vec::new();
    let mut i: usize = 0;
    while i < v.len()
        invariant
            i <= v.len(),
            out.len() == i,
            forall|j: int| 0 <= j < i ==> out[j]@ == v[j]@,
        decreases v.len() - i,
    {
        out.push(v[i].copy());
        i += 1;
    }
    assert(values(out@) =~= values(v@));
    out
}

impl Expression {
    /// A deep copy.
    pub fn copy(&self) -> (r: Expression)
        ensures
            r@ == self@,
        decreases self,
    {
        match self {
            Expression::Bool(b) => Expression::Bool(*b),
            Expression::Number(n) => Expression::Number(n.clone()),
            Expression::Symbol(s) => Expression::Symbol(s.clone()),
            Expression::String(s) => Expression::String(s.clone()),
            Expression::List(v) => Expression::List(copy_expressions(v)),
            Expression::Func(f) => Expression::Func(*f),
            Expression::Function(p) => Expression::Function(p.copy()),
            Expression::Nil => Expression::Nil,
            Expression::Quoted(b) => Expression::Quoted(Box::new(b.copy())),
        }
    }
}

impl Procedure {
    /// A deep copy.
    pub fn copy(&self) -> (r: Procedure)
        ensures
            r@ == self@,
        decreases self,
    {
        Procedure {
            params: copy_expressions(&self.params),
            body: copy_expressions(&self.body),
            env: self.env.copy(),
        }
    }
}

/// The printed form of each value of `xs`, in order.
pub open spec fn render_each(xs: Seq<Value>, quoted: bool) -> Seq<Seq<char>>
    decreases xs,
{
    Seq::new(
        xs.len(),
        |i: int|
            if 0 <= i < xs.len() {
                render(xs[i], quoted)
            } else {
                Seq::empty()
            },
    )
}

/// The printed form of a value. Booleans print as `#t` and `#f`, the empty
/// value as `nil`, a number and a symbol as their text, a quoted form as `'`
/// and the form, a list as its elements between parentheses with one space
/// between neighbours, and every function as `<fn>`. A string prints
/// between double quotes if `quoted`, and as its bare characters otherwise.
pub open spec fn render(v: Value, quoted: bool) -> Seq<char>
    decreases v,
{
    match v {
        Value::Bool(b) => if b {
            seq!['#', 't']
        } else {
            seq!['#', 'f']
        },
        Value::Number(t) => t,
        Value::Symbol(s) => s,
        Value::Str(s) => if quoted {
            seq!['"'] + s + seq!['"']
        } else {
            s
        },
        Value::List(xs) => seq!['('] + join(render_each(xs, quoted), seq![' ']) + seq![')'],
        Value::Func(_) => seq!['<', 'f', 'n', '>'],
        Value::Function(_) => seq!['<', 'f', 'n', '>'],
        Value::Nil => seq!['n', 'i', 'l'],
        Value::Quoted(x) => seq!['\''] + render(*x, quoted),
    }
}

impl Expression {
    /// The symbol named `symbol`.
    pub fn symbol(symbol: &str) -> (r: Self)
        ensures
            r@ == Value::Symbol(symbol@),
    {
        Expression::Symbol(symbol.to_owned())
    }

    /// The string with the characters of `string`.
    pub fn string(string: &str) -> (r: Self)
        ensures
            r@ == Value::Str(string@),
    {
        Expression::String(string.to_owned())
    }

    /// The number whose decimal text is `text`.
    pub fn number(text: &str) -> (r: Self)
        ensures
            r@ == Value::Number(text@),
    {
        Expression::Number(text.to_owned())
    }

    /// The list of `items`.
    pub fn list(items: Vec<Expression>) -> (r: Self)
        ensures
            r@ == Value::List(values(items@)),
    {
        Expression::List(items)
    }

    /// The printed form with strings as their bare characters.
    pub fn fmt_string(&self) -> (r: String)
        ensures
            r@ == render(self@, false),
    {
        self.print(false)
    }

    /// The printed form with strings between double quotes.
    pub fn to_string(&self) -> (r: String)
        ensures
            r@ == render(self@, true),
    {
        self.print(true)
    }

    /// The printed form, strings between double quotes if `quoted`.
    #[verifier::loop_isolation(false)]
    pub fn print(&self, quoted: bool) -> (r: String)
        ensures
            r@ == render(self@, quoted),
        decreases self,
    {
        proof {
            reveal_strlit("#t");
            reveal_strlit("#f");
            reveal_strlit("nil");
            reveal_strlit("<fn>");
            reveal_strlit("\"");
            reveal_strlit("'");
            reveal_strlit("(");
            reveal_strlit(")");
            reveal_strlit(" ");
        }
        match self {
            Expression::Bool(b) => {
                if *b {
                    let r = "#t".to_owned();
                    assert(r@ =~= seq!['#', 't']);
                    r
                } else {
                    let r = "#f".to_owned();
                    assert(r@ =~= seq!['#', 'f']);
                    r
                }
            },
            Expression::Number(n) => n.clone(),
            Expression::Symbol(s) => s.clone(),
            Expression::String(s) => {
                if quoted {
                    let mut out = "\"".to_owned();
                    assert(out@ =~= seq!['"']);
                    out.append(s.as_str());
                    out.append("\"");
                    assert("\""@ =~= seq!['"']);
                    out
                } else {
                    s.clone()
                }
            },
            Expression::List(v) => {
                let mut parts: Vec<String> = Vec::new();
                let mut i: usize = 0;
                while i < v.len()
                    invariant
                        i <= v.len(),
                        parts.len() == i,
                        forall|j: int| 0 <= j < i ==> parts[j]@ == render(v[j]@, quoted),
                    decreases v.len() - i,
                {
                    parts.push(v[i].print(quoted));
                    i += 1;
                }
                assert(strings_view(parts@) =~= render_each(values(v@), quoted));
                let mut out = "(".to_owned();
                assert(out@ =~= seq!['(']);
                let inner = join_strings(&parts, " ");
                assert(" "@ =~= seq![' ']);
                out.append(inner.as_str());
                out.append(")");
                assert(")"@ =~= seq![')']);
                out
            },
            Expression::Func(_) => {
                let r = "<fn>".to_owned();
                assert(r@ =~= seq!['<', 'f', 'n', '>']);
                r
            },
            Expression::Function(_) => {
                let r = "<fn>".to_owned();
                assert(r@ =~= seq!['<', 'f', 'n', '>']);
                r
            },
            Expression::Nil => {
                let r = "nil".to_owned();
                assert(r@ =~= seq!['n', 'i', 'l']);
                r
            },
            Expression::Quoted(b) => {
                let mut out = "'".to_owned();
                assert(out@ =~= seq!['\'']);
                let inner = b.print(quoted);
                out.append(inner.as_str());
                out
            },
        }
    }
}

impl Clone for Expression {
    fn clone(&self) -> (r: Self)
        ensures
            r@ == self@,
    {
        self.copy()
    }
}

impl Clone for Procedure {
    fn clone(&self) -> (r: Self)
        ensures
            r@ == self@,
    {
        self.copy()
    }
}

impl View for Expression {
    type V = Value;

    open spec fn view(&self) -> Value {
        self.value()
    }
}

impl View for Procedure {
    type V = Closure;

    open spec fn view(&self) -> Closure {
        self.closure()
    }
}

} // verus!
