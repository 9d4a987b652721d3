//! The primitive operations that the library carries out itself: boolean
//! negation, list and string operations, and text formatting.
//!
//! Each takes the evaluated arguments of a call and checks their number and
//! kind itself; misuse gives an error message, never a panic.

use crate::expression::{copy_expressions, render, render_each, values, Expression, Native, Value};
use crate::parser::is_digit;
use crate::text::{decimal, decimal_string, strings_view, to_chars};
use std::collections::HashMap;
use vstd::prelude::*;

verus! {

/// The outcome of a primitive as a mathematical value.
pub open spec fn outcome(r: Result<Expression, String>) -> Result<Value, Seq<char>> {
    match r {
        Ok(e) => Ok(e@),
        Err(m) => Err(m@),
    }
}

/// The quoted empty list.
pub open spec fn empty_quoted_list() -> Value {
    Value::Quoted(Box::new(Value::List(Seq::empty())))
}

/// The elements of a list or of a quoted list.
pub open spec fn list_items(v: Value) -> Option<Seq<Value>> {
    match v {
        Value::List(xs) => Some(xs),
        Value::Quoted(q) => match *q {
            Value::List(xs) => Some(xs),
            _ => None,
        },
        _ => None,
    }
}

/// `not`: the negation of a boolean; the empty value stays as it is.
pub open spec fn not_spec(args: Seq<Value>) -> Result<Value, Seq<char>> {
    if args.len() == 0 {
        Err("`not` requires a single argument"@)
    } else {
        match args[0] {
            Value::Nil => Ok(Value::Nil),
            Value::Bool(b) => Ok(Value::Bool(!b)),
            _ => Err("`not` expects either a `nil` or a `bool`"@),
        }
    }
}

/// `car`: the first element of a list or quoted list, the empty value for
/// an empty one, and the quoted empty list for anything else.
pub open spec fn car_spec(args: Seq<Value>) -> Result<Value, Seq<char>> {
    if args.len() == 0 {
        Err("`car` requires one argument"@)
    } else {
        match list_items(args[0]) {
            Some(xs) => Ok(
                if xs.len() > 0 {
                    xs[0]
                } else {
                    Value::Nil
                },
            ),
            None => Ok(empty_quoted_list()),
        }
    }
}

/// `cdr`: the list without its first element, the empty value for an empty
/// list and for a quoted form that is no list.
pub open spec fn cdr_spec(args: Seq<Value>) -> Result<Value, Seq<char>> {
    if args.len() == 0 {
        Err("`cdr` requires one argument"@)
    } else {
        match args[0] {
            Value::List(xs) => Ok(
                if xs.len() == 0 {
                    Value::Nil
                } else {
                    Value::List(xs.skip(1))
                },
            ),
            Value::Quoted(q) => match *q {
                Value::List(xs) => Ok(
                    if xs.len() == 0 {
                        Value::Nil
                    } else {
                        Value::List(xs.skip(1))
                    },
                ),
                _ => Ok(Value::Nil),
            },
            _ => Err("`cdr` requires one argument"@),
        }
    }
}

/// `cons`: the list with the first argument put before the elements of the
/// second.
pub open spec fn cons_spec(args: Seq<Value>) -> Result<Value, Seq<char>> {
    if args.len() != 2 {
        Err("`cons` requires exactly two arguments"@)
    } else {
        match list_items(args[1]) {
            Some(xs) => Ok(Value::List(seq![args[0]] + xs)),
            None => Err("expected a list"@),
        }
    }
}

/// `append`: the elements of the first list followed by those of the
/// second.
pub open spec fn append_spec(args: Seq<Value>) -> Result<Value, Seq<char>> {
    if args.len() != 2 {
        Err("`append` requires exactly two arguments"@)
    } else {
        match (list_items(args[0]), list_items(args[1])) {
            (Some(xs), Some(ys)) => Ok(Value::List(xs + ys)),
            _ => Err("expected a list"@),
        }
    }
}

/// `list`: the list of the arguments.
pub open spec fn list_spec(args: Seq<Value>) -> Result<Value, Seq<char>> {
    Ok(Value::List(args))
}

/// `empty?`: whether the one argument is an empty list, a quoted empty
/// list, the empty value or the quoted empty value.
pub open spec fn is_empty_spec(args: Seq<Value>) -> Result<Value, Seq<char>> {
    if args.len() != 1 {
        Ok(Value::Bool(false))
    } else {
        match args[0] {
            Value::List(xs) => Ok(Value::Bool(xs.len() == 0)),
            Value::Nil => Ok(Value::Bool(true)),
            Value::Quoted(q) => match *q {
                Value::List(xs) => Ok(Value::Bool(xs.len() == 0)),
                Value::Nil => Ok(Value::Bool(true)),
                _ => Ok(Value::Bool(false)),
            },
            _ => Ok(Value::Bool(false)),
        }
    }
}

/// `len`: the number of elements of the one list given, or the number of
/// arguments where there is not exactly one.
pub open spec fn len_spec(args: Seq<Value>) -> Result<Value, Seq<char>> {
    if args.len() == 1 {
        match list_items(args[0]) {
            Some(xs) => Ok(Value::Number(decimal(xs.len()))),
            None => Err("expected a list"@),
        }
    } else {
        Ok(Value::Number(decimal(args.len())))
    }
}

/// `string->list`: the characters of a string, each as a string of its own.
pub open spec fn as_list_spec(args: Seq<Value>) -> Result<Value, Seq<char>> {
    if args.len() == 0 {
        Err("`string->list` requires one argument"@)
    } else {
        match args[0] {
            Value::Str(s) => Ok(Value::List(Seq::new(s.len(), |i: int| Value::Str(seq![s[i]])))),
            _ => Err("`string->list` accepts a string"@),
        }
    }
}

/// The printed forms of `xs`, strings bare, one after the other.
pub open spec fn concat_rendered(xs: Seq<Value>) -> Seq<char>
    decreases xs.len(),
{
    if xs.len() == 0 {
        Seq::empty()
    } else {
        concat_rendered(xs.drop_last()) + render(xs.last(), false)
    }
}

/// `list->string`: the printed forms of the elements of a list, strings
/// bare, one after the other.
pub open spec fn from_list_spec(args: Seq<Value>) -> Result<Value, Seq<char>> {
    if args.len() == 0 {
        Err("`list->string` requires one argument"@)
    } else {
        match list_items(args[0]) {
            Some(xs) => Ok(Value::Str(concat_rendered(xs))),
            None => Err("expected a list"@),
        }
    }
}

/// The elements of a list or of a quoted list, copied.
pub fn extract_list(expr: &Expression) -> (r: Result<Vec<Expression>, String>)
    ensures
        match r {
            Ok(v) => list_items(expr@) == Some(values(v@)),
            Err(m) => list_items(expr@) is None && m@ == "expected a list"@,
        },
{
    match borrow_list(expr) {
        Some(lst) => Ok(copy_expressions(lst)),
        None => Err("expected a list".to_owned()),
    }
}

/// The elements of a list or of a quoted list.
fn borrow_list(expr: &Expression) -> (r: Option<&Vec<Expression>>)
    ensures
        match r {
            Some(v) => list_items(expr@) == Some(values(v@)),
            None => list_items(expr@) is None,
        },
{
    proof {
        reveal_with_fuel(Expression::value, 3);
        reveal_with_fuel(values, 3);
    }
    match expr {
        Expression::List(lst) => Some(lst),
        Expression::Quoted(boxed) => match &**boxed {
            Expression::List(lst) => Some(lst),
            _ => None,
        },
        _ => None,
    }
}

/// `not`: negates a boolean and leaves the empty value as it is.
pub fn not(args: &[Expression]) -> (r: Result<Expression, String>)
    ensures
        outcome(r) == not_spec(values(args@)),
{
    if args.len() == 0 {
        return Err("`not` requires a single argument".to_owned());
    }
    match &args[0] {
        Expression::Nil => Ok(Expression::Nil),
        Expression::Bool(b) => Ok(Expression::Bool(!*b)),
        _ => Err("`not` expects either a `nil` or a `bool`".to_owned()),
    }
}

/// The first element of `lst`, or the empty value.
fn first_or_nil(lst: &Vec<Expression>) -> (r: Expression)
    ensures
        r@ == if lst.len() > 0 {
            lst[0]@
        } else {
            Value::Nil
        },
{
    if lst.len() > 0 {
        lst[0].copy()
    } else {
        Expression::Nil
    }
}

/// `lst` without its first element as a list, or the empty value.
fn rest_or_nil(lst: &Vec<Expression>) -> (r: Expression)
    ensures
        r@ == if lst.len() == 0 {
            Value::Nil
        } else {
            Value::List(values(lst@).skip(1))
        },
{
    if lst.len() == 0 {
        Expression::Nil
    } else {
        let mut out: Vec<Expression> = Vec::new();
        let mut i: usize = 1;
        while i < lst.len()
            invariant
                1 <= i <= lst.len(),
                out.len() == i - 1,
                forall|j: int| 0 <= j < out.len() ==> out[j]@ == lst[j + 1]@,
            decreases lst.len() - i,
        {
            out.push(lst[i].copy());
            i += 1;
        }
        assert(values(out@) =~= values(lst@).skip(1));
        Expression::List(out)
    }
}

/// `car`: the first element of a list.
pub fn car(args: &[Expression]) -> (r: Result<Expression, String>)
    ensures
        outcome(r) == car_spec(values(args@)),
{
    proof {
        reveal_with_fuel(Expression::value, 3);
        reveal_with_fuel(values, 3);
    }
    if args.len() == 0 {
        return Err("`car` requires one argument".to_owned());
    }
    match borrow_list(&args[0]) {
        Some(lst) => Ok(first_or_nil(lst)),
        None => {
            let inner = Expression::List(Vec::new());
            assert(values(Seq::<Expression>::empty()) =~= Seq::<Value>::empty());
            Ok(Expression::Quoted(Box::new(inner)))
        },
    }
}

/// `cdr`: a list without its first element.
pub fn cdr(args: &[Expression]) -> (r: Result<Expression, String>)
    ensures
        outcome(r) == cdr_spec(values(args@)),
{
    proof {
        reveal_with_fuel(Expression::value, 3);
        reveal_with_fuel(values, 3);
    }
    if args.len() == 0 {
        return Err("`cdr` requires one argument".to_owned());
    }
    match &args[0] {
        Expression::List(lst) => Ok(rest_or_nil(lst)),
        Expression::Quoted(quote) => match &**quote {
            Expression::List(lst) => Ok(rest_or_nil(lst)),
            _ => Ok(Expression::Nil),
        },
        _ => Err("`cdr` requires one argument".to_owned()),
    }
}

/// `cons`: a list with one more element in front.
pub fn cons(args: &[Expression]) -> (r: Result<Expression, String>)
    ensures
        outcome(r) == cons_spec(values(args@)),
{
    if args.len() != 2 {
        return Err("`cons` requires exactly two arguments".to_owned());
    }
    match extract_list(&args[1]) {
        Ok(tail) => {
            let mut new_lst = tail;
            let ghost before = values(new_lst@);
            new_lst.insert(0, args[0].copy());
            assert(values(new_lst@) =~= seq![args[0]@] + before);
            Ok(Expression::List(new_lst))
        },
        Err(m) => Err(m),
    }
}

/// `append`: two lists as one.
pub fn append(args: &[Expression]) -> (r: Result<Expression, String>)
    ensures
        outcome(r) == append_spec(values(args@)),
{
    if args.len() != 2 {
        return Err("`append` requires exactly two arguments".to_owned());
    }
    match extract_list(&args[0]) {
        Ok(head) => match extract_list(&args[1]) {
            Ok(tail) => {
                let mut head_lst = head;
                let mut tail_lst = tail;
                let ghost xs = values(head_lst@);
                let ghost ys = values(tail_lst@);
                head_lst.append(&mut tail_lst);
                assert(values(head_lst@) =~= xs + ys);
                Ok(Expression::List(head_lst))
            },
            Err(m) => Err(m),
        },
        Err(m) => Err(m),
    }
}

/// The elements of `args`, copied.
fn copy_slice(args: &[Expression]) -> (r: Vec<Expression>)
    ensures
        values(r@) == values(args@),
{
    let mut out: Vec<Expression> = Vec::new();
    let mut i: usize = 0;
    while i < args.len()
        invariant
            i <= args.len(),
            out.len() == i,
            forall|j: int| 0 <= j < i ==> out[j]@ == args[j]@,
        decreases args.len() - i,
    {
        out.push(args[i].copy());
        i += 1;
    }
    assert(values(out@) =~= values(args@));
    out
}

/// `list`: the arguments as a list.
pub fn list(args: &[Expression]) -> (r: Result<Expression, String>)
    ensures
        outcome(r) == list_spec(values(args@)),
{
    Ok(Expression::List(copy_slice(args)))
}

/// `empty?`: whether the argument is an empty list or the empty value.
pub fn is_empty(args: &[Expression]) -> (r: Result<Expression, String>)
    ensures
        outcome(r) == is_empty_spec(values(args@)),
{
    proof {
        reveal_with_fuel(Expression::value, 3);
        reveal_with_fuel(values, 3);
    }
    if args.len() != 1 {
        return Ok(Expression::Bool(false));
    }
    match &args[0] {
        Expression::List(lst) => Ok(Expression::Bool(lst.len() == 0)),
        Expression::Nil => Ok(Expression::Bool(true)),
        Expression::Quoted(q) => match &**q {
            Expression::List(lst) => Ok(Expression::Bool(lst.len() == 0)),
            Expression::Nil => Ok(Expression::Bool(true)),
            _ => Ok(Expression::Bool(false)),
        },
        _ => Ok(Expression::Bool(false)),
    }
}

/// `len`: the number of elements of a list, or of arguments.
pub fn len(args: &[Expression]) -> (r: Result<Expression, String>)
    ensures
        outcome(r) == len_spec(values(args@)),
{
    if args.len() == 1 {
        match borrow_list(&args[0]) {
            Some(lst) => Ok(Expression::Number(decimal_string(lst.len()))),
            None => Err("expected a list".to_owned()),
        }
    } else {
        Ok(Expression::Number(decimal_string(args.len())))
    }
}

/// `string->list`: the characters of a string as a list of strings.
pub fn as_list(args: &[Expression]) -> (r: Result<Expression, String>)
    ensures
        outcome(r) == as_list_spec(values(args@)),
{
    if args.len() == 0 {
        return Err("`string->list` requires one argument".to_owned());
    }
    match &args[0] {
        Expression::String(s) => {
            let chars = to_chars(s.as_str());
            let mut out: Vec<Expression> = Vec::new();
            let mut i: usize = 0;
            while i < chars.len()
                invariant
                    i <= chars.len(),
                    out.len() == i,
                    forall|j: int| 0 <= j < i ==> out[j]@ == Value::Str(seq![chars[j]]),
                decreases chars.len() - i,
            {
                let mut one = String::new();
                one.push(chars[i]);
                assert(one@ =~= seq![chars[i as int]]);
                out.push(Expression::String(one));
                i += 1;
            }
            assert(values(out@) =~= Seq::new(s@.len(), |i: int| Value::Str(seq![s@[i]])));
            Ok(Expression::List(out))
        },
        _ => Err("`string->list` accepts a string".to_owned()),
    }
}

/// `list->string`: the printed forms of the elements of a list as one
/// string.
pub fn from_list(args: &[Expression]) -> (r: Result<Expression, String>)
    ensures
        outcome(r) == from_list_spec(values(args@)),
{
    if args.len() == 0 {
        return Err("`list->string` requires one argument".to_owned());
    }
    match borrow_list(&args[0]) {
        Some(lst) => {
            let mut out = String::new();
            let mut i: usize = 0;
            assert(values(lst@).take(0) =~= Seq::<Value>::empty());
            while i < lst.len()
                invariant
                    i <= lst.len(),
                    out@ == concat_rendered(values(lst@).take(i as int)),
                decreases lst.len() - i,
            {
                let piece = lst[i].fmt_string();
                proof {
                    let all = values(lst@);
                    assert(all.take(i + 1).drop_last() =~= all.take(i as int));
                    assert(all.take(i + 1).last() == lst[i as int]@);
                }
                out.append(piece.as_str());
                i += 1;
            }
            assert(values(lst@).take(lst.len() as int) =~= values(lst@));
            Ok(Expression::String(out))
        },
        None => Err("expected a list".to_owned()),
    }
}

/// What `strfmt::strfmt` makes of the format string `fmt` when the
/// variable named by the number `i` is the `i`-th text of `args`: the
/// formatted text, or the printed form of its error.
pub uninterp spec fn strfmt_text(fmt: Seq<char>, args: Seq<Seq<char>>) -> Result<
    Seq<char>,
    Seq<char>,
>;

/// What a scan of a format string has seen so far.
pub struct Fields {
    /// The scan is inside a field, after its `{`.
    pub inside: bool,
    /// The character before was the `{` that opened the field.
    pub fresh: bool,
    /// The scan is inside a field and past its first `:`.
    pub colon: bool,
    /// The number that the digits read last make up, inside a field and
    /// past its `:`.
    pub run: nat,
    /// The sum of the numbers that stand past the `:` of the fields.
    pub widths: nat,
    /// The number of fields that were closed.
    pub fields: nat,
}

/// The number that the digit `c` stands for.
pub open spec fn digit_value(c: char) -> nat {
    if c == '1' {
        1
    } else if c == '2' {
        2
    } else if c == '3' {
        3
    } else if c == '4' {
        4
    } else if c == '5' {
        5
    } else if c == '6' {
        6
    } else if c == '7' {
        7
    } else if c == '8' {
        8
    } else if c == '9' {
        9
    } else {
        0
    }
}

/// The scan after one more character: a `{` opens a field, unless it
/// follows the `{` that opened one, which makes the two a brace to print;
/// a `}` closes the field; past the `:` of a field, digits make up a
/// number and every other character ends it.
pub open spec fn scan_step(f: Fields, c: char) -> Fields {
    if f.inside {
        if c == '{' && f.fresh {
            Fields {
                inside: false,
                fresh: false,
                colon: false,
                run: 0,
                widths: f.widths + f.run,
                ..f
            }
        } else if c == '}' {
            Fields {
                inside: false,
                fresh: false,
                colon: false,
                run: 0,
                widths: f.widths + f.run,
                fields: f.fields + 1,
            }
        } else if f.colon && is_digit(c) {
            Fields { fresh: false, run: f.run * 10 + digit_value(c), ..f }
        } else {
            Fields {
                fresh: false,
                colon: f.colon || c == ':',
                run: 0,
                widths: f.widths + f.run,
                ..f
            }
        }
    } else if c == '{' {
        Fields {
            inside: true,
            fresh: true,
            colon: false,
            run: 0,
            widths: f.widths + f.run,
            ..f
        }
    } else {
        f
    }
}

/// The scan of the first `n` characters of `fmt`.
pub open spec fn scan(fmt: Seq<char>, n: nat) -> Fields
    decreases n,
{
    if n == 0 {
        Fields { inside: false, fresh: false, colon: false, run: 0, widths: 0, fields: 0 }
    } else {
        scan_step(scan(fmt, (n - 1) as nat), fmt[n - 1])
    }
}

/// The most characters that formatting `fmt` can give when no text to put
/// in has more than `longest` characters: the characters of `fmt`, for each
/// field the longest text and as many fill characters as the numbers past
/// its `:` ask for, and the length of the longest error message.
pub open spec fn room(fmt: Seq<char>, longest: nat) -> nat {
    let f = scan(fmt, fmt.len());
    fmt.len() + f.widths + f.run + f.fields * longest + 64
}

/// Whether a string can hold what formatting `fmt` can give: a string
/// holds at most `isize::MAX` bytes, and a character takes at most four.
pub open spec fn fits(fmt: Seq<char>, longest: nat) -> bool {
    4 * room(fmt, longest) <= usize::MAX / 2
}

/// The length of the longest of `texts`.
pub open spec fn longest(texts: Seq<Seq<char>>) -> nat
    decreases texts.len(),
{
    if texts.len() == 0 {
        0
    } else if texts.last().len() > longest(texts.drop_last()) {
        texts.last().len()
    } else {
        longest(texts.drop_last())
    }
}

/// The numbers asked for never get smaller as the scan goes on.
proof fn lemma_scan_grows(fmt: Seq<char>, n: nat, m: nat)
    requires
        n <= m,
    ensures
        scan(fmt, n).widths + scan(fmt, n).run <= scan(fmt, m).widths + scan(fmt, m).run,
    decreases m - n,
{
    if n < m {
        lemma_scan_grows(fmt, n, (m - 1) as nat);
        let f = scan(fmt, (m - 1) as nat);
        assert(f.run * 10 >= f.run) by (nonlinear_arith);
    }
}

/// A formatted text or error message as a mathematical value.
pub open spec fn text_result(r: Result<String, String>) -> Result<Seq<char>, Seq<char>> {
    match r {
        Ok(t) => Ok(t@),
        Err(m) => Err(m@),
    }
}

/// Calls `strfmt::strfmt` with the format string `fmt` and a map from each
/// index of `args` to the text at that index, and turns an error into its
/// printed form. The result is taken to depend on the format string and the
/// texts alone. The call writes the text of `fmt` and, for each field, the
/// text put in and as many fill characters as the field's width asks for;
/// what is left out are the inputs for which no string can hold that.
#[verifier::external_body]
fn strfmt_indexed(fmt: &str, args: &Vec<String>) -> (r: Result<String, String>)
    requires
        fits(fmt@, longest(strings_view(args@))),
    ensures
        text_result(r) == strfmt_text(fmt@, strings_view(args@)),
{
    let mut vars: HashMap<usize, String> = HashMap::new();
    for (idx, arg) in args.iter().enumerate() {
        vars.insert(idx, arg.clone());
    }
    strfmt::strfmt(fmt, &vars).map_err(|e| e.to_string())
}

/// The number that the digit `c` stands for.
fn digit_number(c: char) -> (r: usize)
    ensures
        r == digit_value(c),
        r <= 9,
{
    if c == '1' {
        1
    } else if c == '2' {
        2
    } else if c == '3' {
        3
    } else if c == '4' {
        4
    } else if c == '5' {
        5
    } else if c == '6' {
        6
    } else if c == '7' {
        7
    } else if c == '8' {
        8
    } else if c == '9' {
        9
    } else {
        0
    }
}

/// Whether a string can hold what formatting `fmt` can give when no text
/// to put in has more than `most` characters.
pub fn fits_in_a_string(fmt: &str, most: usize) -> (r: bool)
    ensures
        r == fits(fmt@, most as nat),
{
    let limit: usize = usize::MAX / 2 / 4;
    let chars = to_chars(fmt);
    if chars.len() > limit {
        return false;
    }
    let mut inside = false;
    let mut fresh = false;
    let mut colon = false;
    let mut run: usize = 0;
    let mut widths: usize = 0;
    let mut fields: usize = 0;
    let mut i: usize = 0;
    while i < chars.len()
        invariant
            i <= chars.len(),
            chars@ == fmt@,
            limit == usize::MAX / 2 / 4,
            chars.len() <= limit,
            run <= limit,
            widths <= limit,
            fields <= i,
            !(inside && colon) ==> run == 0,
            scan(fmt@, i as nat) == (Fields {
                inside,
                fresh,
                colon,
                run: run as nat,
                widths: widths as nat,
                fields: fields as nat,
            }),
        decreases chars.len() - i,
    {
        let c = chars[i];
        let ghost before = scan(fmt@, i as nat);
        proof {
            assert(scan(fmt@, (i + 1) as nat) == scan_step(before, c));
            lemma_scan_grows(fmt@, (i + 1) as nat, fmt@.len());
        }
        if inside {
            if c == '{' && fresh {
                inside = false;
                fresh = false;
                colon = false;
                run = 0;
            } else if c == '}' || !(colon && '0' <= c && c <= '9') {
                if widths > limit - run {
                    return false;
                }
                widths = widths + run;
                run = 0;
                fresh = false;
                if c == '}' {
                    inside = false;
                    colon = false;
                    fields = fields + 1;
                } else {
                    colon = colon || c == ':';
                }
            } else {
                let d = digit_number(c);
                if run > (limit - 9) / 10 {
                    return false;
                }
                run = run * 10 + d;
                fresh = false;
            }
        } else if c == '{' {
            inside = true;
            fresh = true;
            colon = false;
            run = 0;
        }
        i += 1;
    }
    if widths > limit - run {
        return false;
    }
    let asked = widths + run;
    let texts = match fields.checked_mul(most) {
        Some(n) => n,
        None => {
            assert(fields * most > limit) by (nonlinear_arith)
                requires
                    fields * most > usize::MAX,
                    limit <= usize::MAX,
            ;
            return false;
        },
    };
    if texts > limit || asked > limit - texts {
        return false;
    }
    let sum = asked + texts;
    if chars.len() > limit - sum {
        return false;
    }
    let sum = sum + chars.len();
    sum <= limit - 64
}

/// The length of the longest of `texts`.
fn longest_of(texts: &Vec<String>) -> (r: usize)
    ensures
        r == longest(strings_view(texts@)),
{
    let mut most: usize = 0;
    let mut i: usize = 0;
    assert(strings_view(texts@).take(0) =~= Seq::<Seq<char>>::empty());
    while i < texts.len()
        invariant
            i <= texts.len(),
            most == longest(strings_view(texts@).take(i as int)),
        decreases texts.len() - i,
    {
        let n = texts[i].as_str().unicode_len();
        proof {
            let all = strings_view(texts@);
            assert(all.take(i + 1).drop_last() =~= all.take(i as int));
            assert(all.take(i + 1).last() == texts[i as int]@);
        }
        if n > most {
            most = n;
        }
        i += 1;
    }
    assert(strings_view(texts@).take(texts.len() as int) =~= strings_view(texts@));
    most
}

/// `format`: the printed form of a single argument; or the first argument,
/// a format string, with each `{i}` replaced by the printed form of the
/// argument after it at index `i`. Strings print bare. Where the fields
/// ask for more than a string can hold, nothing is formatted.
pub open spec fn format_spec(args: Seq<Value>) -> Result<Value, Seq<char>> {
    if args.len() == 0 {
        Err("format requires at least one argument"@)
    } else if args.len() == 1 {
        Ok(Value::Str(render(args[0], false)))
    } else {
        match args[0] {
            Value::Str(fmt) => if fits(fmt, longest(render_each(args.skip(1), false))) {
                formatted(strfmt_text(fmt, render_each(args.skip(1), false)))
            } else {
                Err("formatted text too long"@)
            },
            _ => Err("format string must begin with string"@),
        }
    }
}

/// The value of `format` for the text or message that formatting gave.
pub open spec fn formatted(r: Result<Seq<char>, Seq<char>>) -> Result<Value, Seq<char>> {
    match r {
        Ok(t) => Ok(Value::Str(t)),
        Err(m) => Err(m),
    }
}

/// Wraps the text that formatting gave as a string value, and hands its
/// error message on.
pub fn format_outcome(r: Result<String, String>) -> (o: Result<Expression, String>)
    ensures
        outcome(o) == formatted(text_result(r)),
{
    match r {
        Ok(t) => Ok(Expression::String(t)),
        Err(m) => Err(m),
    }
}

/// `format`: the printed form of one argument, or a format string filled
/// with the printed forms of the arguments after it.
pub fn format(args: &[Expression]) -> (r: Result<Expression, String>)
    ensures
        outcome(r) == format_spec(values(args@)),
{
    if args.len() == 0 {
        return Err("format requires at least one argument".to_owned());
    }
    if args.len() == 1 {
        return Ok(Expression::String(args[0].fmt_string()));
    }
    match &args[0] {
        Expression::String(fmt) => {
            let mut texts: Vec<String> = Vec::new();
            let mut i: usize = 1;
            while i < args.len()
                invariant
                    1 <= i <= args.len(),
                    texts.len() == i - 1,
                    forall|j: int|
                        0 <= j < texts.len() ==> texts[j]@ == render(args[j + 1]@, false),
                decreases args.len() - i,
            {
                texts.push(args[i].fmt_string());
                i += 1;
            }
            assert(strings_view(texts@) =~= render_each(values(args@).skip(1), false));
            if !fits_in_a_string(fmt.as_str(), longest_of(&texts)) {
                return Err("formatted text too long".to_owned());
            }
            format_outcome(strfmt_indexed(fmt.as_str(), &texts))
        },
        _ => Err("format string must begin with string".to_owned()),
    }
}

/// Whether the library carries out `native` itself.
pub open spec fn is_builtin(native: Native) -> bool {
    native is Not || native is Car || native is Cdr || native is Cons || native is Append
        || native is List || native is IsEmpty || native is Len || native is AsList
        || native is FromList || native is Format
}

/// What the primitive `native` returns on `args`, for the primitives that
/// the library carries out itself.
pub open spec fn builtin_spec(native: Native, args: Seq<Value>) -> Result<Value, Seq<char>> {
    match native {
        Native::Not => not_spec(args),
        Native::Car => car_spec(args),
        Native::Cdr => cdr_spec(args),
        Native::Cons => cons_spec(args),
        Native::Append => append_spec(args),
        Native::List => list_spec(args),
        Native::IsEmpty => is_empty_spec(args),
        Native::Len => len_spec(args),
        Native::AsList => as_list_spec(args),
        Native::FromList => from_list_spec(args),
        _ => format_spec(args),
    }
}

/// Carries out `native` on `args` if it is one of the library's own
/// primitives; `None` if it is for the host.
pub fn builtin(native: Native, args: &[Expression]) -> (r: Option<Result<Expression, String>>)
    ensures
        match r {
            Some(o) => is_builtin(native) && outcome(o) == builtin_spec(native, values(args@)),
            None => !is_builtin(native),
        },
{
    match native {
        Native::Not => Some(not(args)),
        Native::Car => Some(car(args)),
        Native::Cdr => Some(cdr(args)),
        Native::Cons => Some(cons(args)),
        Native::Append => Some(append(args)),
        Native::List => Some(list(args)),
        Native::IsEmpty => Some(is_empty(args)),
        Native::Len => Some(len(args)),
        Native::AsList => Some(as_list(args)),
        Native::FromList => Some(from_list(args)),
        Native::Format => Some(format(args)),
        _ => None,
    }
}

} // verus!
