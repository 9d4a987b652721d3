//! The reader: from program text to expressions.
//!
//! A program is a sequence of forms separated by white space. A form is a
//! list of forms between parentheses, a string between double quotes, a
//! form with `'` before it, or an atom: a run of characters up to the next
//! white space, parenthesis or double quote. The atoms `nil`, `#t` and `#f`
//! are the empty value and the booleans, an atom written as a number is a
//! number, and every other atom is a symbol. A number is written as a
//! decimal number or as one of the words `inf`, `infinity` and `nan`.

use crate::expression::{lemma_values_push, values, Expression, Value};
use crate::text::{from_chars, to_chars};
use vstd::prelude::*;

verus! {

broadcast use crate::expression::group_values;

/// Why a text is no program.
#[derive(Debug, Clone, Copy, PartialEq, Eq, Structural)]
pub enum ParseError {
    /// The text ends inside a list or a string, or right after a `'`.
    UnexpectedEnd,
    /// A `)` stands where no list is open.
    UnexpectedClose,
    /// A `'` is followed by white space instead of a form.
    EmptyQuote,
}

/// Whether `c` separates forms without being part of one.
pub open spec fn is_space(c: char) -> bool {
    c == ' ' || c == '\t' || c == '\n' || c == '\r'
}

/// Whether `c` ends an atom.
pub open spec fn is_delimiter(c: char) -> bool {
    is_space(c) || c == '(' || c == ')' || c == '"'
}

/// Whether `c` is one of the digits `0` to `9`.
pub open spec fn is_digit(c: char) -> bool {
    '0' <= c && c <= '9'
}

/// The index of the first character from `pos` on that ends an atom, or the
/// length of `s`.
pub open spec fn atom_end(s: Seq<char>, pos: int) -> int
    decreases s.len() - pos,
{
    if pos < 0 || pos >= s.len() || is_delimiter(s[pos]) {
        pos
    } else {
        atom_end(s, pos + 1)
    }
}

/// The index of the first `"` from `pos` on, if there is one.
pub open spec fn string_end(s: Seq<char>, pos: int) -> Option<int>
    decreases s.len() - pos,
{
    if pos < 0 || pos >= s.len() {
        None
    } else if s[pos] == '"' {
        Some(pos)
    } else {
        string_end(s, pos + 1)
    }
}

/// The index of the first character from `pos` on that is no digit, or the
/// length of `t`.
pub open spec fn digits_end(t: Seq<char>, pos: int) -> int
    decreases t.len() - pos,
{
    if pos < 0 || pos >= t.len() || !is_digit(t[pos]) {
        pos
    } else {
        digits_end(t, pos + 1)
    }
}

/// Whether `c` is the letter that is written `lower` or `upper`.
pub open spec fn is_letter(c: char, lower: char, upper: char) -> bool {
    c == lower || c == upper
}

/// Whether `t` is, after an optional sign, one of the words `inf`,
/// `infinity` and `nan`, in letters of either case.
pub open spec fn is_special(t: Seq<char>) -> bool {
    let start: int = if t.len() > 0 && (t[0] == '+' || t[0] == '-') {
        1
    } else {
        0
    };
    let n = t.len() - start;
    ||| n == 3 && is_letter(t[start], 'i', 'I') && is_letter(t[start + 1], 'n', 'N') && is_letter(
        t[start + 2],
        'f',
        'F',
    )
    ||| n == 3 && is_letter(t[start], 'n', 'N') && is_letter(t[start + 1], 'a', 'A') && is_letter(
        t[start + 2],
        'n',
        'N',
    )
    ||| n == 8 && is_letter(t[start], 'i', 'I') && is_letter(t[start + 1], 'n', 'N') && is_letter(
        t[start + 2],
        'f',
        'F',
    ) && is_letter(t[start + 3], 'i', 'I') && is_letter(t[start + 4], 'n', 'N') && is_letter(
        t[start + 5],
        'i',
        'I',
    ) && is_letter(t[start + 6], 't', 'T') && is_letter(t[start + 7], 'y', 'Y')
}

/// Whether `t` is written as a number: as a decimal number, or as one of
/// the words for an infinity and for what is not a number.
pub open spec fn is_number(t: Seq<char>) -> bool {
    is_decimal(t) || is_special(t)
}

/// Whether `t` is written as a decimal number: an optional sign, digits
/// with an optional `.` among, before or after them, and an optional
/// exponent of `e` or `E`, an optional sign and digits.
pub open spec fn is_decimal(t: Seq<char>) -> bool {
    let start: int = if t.len() > 0 && (t[0] == '+' || t[0] == '-') {
        1
    } else {
        0
    };
    let whole_end = digits_end(t, start);
    let dot = whole_end < t.len() && t[whole_end] == '.';
    let frac_end = if dot {
        digits_end(t, whole_end + 1)
    } else {
        whole_end
    };
    let digits = if dot {
        (whole_end - start) + (frac_end - (whole_end + 1))
    } else {
        whole_end - start
    };
    if digits <= 0 {
        false
    } else if frac_end < t.len() && (t[frac_end] == 'e' || t[frac_end] == 'E') {
        let exp_start = if frac_end + 1 < t.len() && (t[frac_end + 1] == '+' || t[frac_end + 1] == '-') {
            frac_end + 2
        } else {
            frac_end + 1
        };
        let exp_end = digits_end(t, exp_start);
        exp_end > exp_start && exp_end == t.len()
    } else {
        frac_end == t.len()
    }
}

/// The value that the atom `t` stands for.
pub open spec fn atom(t: Seq<char>) -> Value {
    if t == seq!['n', 'i', 'l'] {
        Value::Nil
    } else if t == seq!['#', 't'] {
        Value::Bool(true)
    } else if t == seq!['#', 'f'] {
        Value::Bool(false)
    } else if is_number(t) {
        Value::Number(t)
    } else {
        Value::Symbol(t)
    }
}

/// The form that starts at `pos`, which holds no white space, and the
/// index after it.
pub open spec fn form_at(s: Seq<char>, pos: int) -> Result<(Value, int), ParseError>
    decreases s.len() - pos, 0int,
{
    if pos < 0 || pos >= s.len() {
        Err(ParseError::UnexpectedEnd)
    } else if s[pos] == '(' {
        match items_at(s, pos + 1) {
            Ok((items, next)) => Ok((Value::List(items), next)),
            Err(e) => Err(e),
        }
    } else if s[pos] == ')' {
        Err(ParseError::UnexpectedClose)
    } else if is_space(s[pos]) {
        Err(ParseError::EmptyQuote)
    } else if s[pos] == '\'' {
        match form_at(s, pos + 1) {
            Ok((inner, next)) => Ok((Value::Quoted(Box::new(inner)), next)),
            Err(e) => Err(e),
        }
    } else if s[pos] == '"' {
        match string_end(s, pos + 1) {
            Some(end) => Ok((Value::Str(s.subrange(pos + 1, end)), end + 1)),
            None => Err(ParseError::UnexpectedEnd),
        }
    } else {
        Ok((atom(s.subrange(pos, atom_end(s, pos))), atom_end(s, pos)))
    }
}

/// The forms from `pos` up to the `)` that closes the list they are in,
/// and the index after that `)`.
pub open spec fn items_at(s: Seq<char>, pos: int) -> Result<(Seq<Value>, int), ParseError>
    decreases s.len() - pos, 1int,
{
    if pos < 0 || pos >= s.len() {
        Err(ParseError::UnexpectedEnd)
    } else if is_space(s[pos]) {
        items_at(s, pos + 1)
    } else if s[pos] == ')' {
        Ok((Seq::empty(), pos + 1))
    } else {
        match form_at(s, pos) {
            Ok((first, next)) => if next <= pos || next > s.len() {
                Err(ParseError::UnexpectedEnd)
            } else {
                match items_at(s, next) {
                    Ok((rest, end)) => Ok((seq![first] + rest, end)),
                    Err(e) => Err(e),
                }
            },
            Err(e) => Err(e),
        }
    }
}

/// The forms from `pos` up to the end of the text.
pub open spec fn forms_at(s: Seq<char>, pos: int) -> Result<Seq<Value>, ParseError>
    decreases s.len() - pos, 1int,
{
    if pos < 0 || pos >= s.len() {
        Ok(Seq::empty())
    } else if is_space(s[pos]) {
        forms_at(s, pos + 1)
    } else {
        match form_at(s, pos) {
            Ok((first, next)) => if next <= pos || next > s.len() {
                Err(ParseError::UnexpectedEnd)
            } else {
                match forms_at(s, next) {
                    Ok(rest) => Ok(seq![first] + rest),
                    Err(e) => Err(e),
                }
            },
            Err(e) => Err(e),
        }
    }
}

/// The program that the text `s` is: its forms in order.
pub open spec fn program(s: Seq<char>) -> Result<Seq<Value>, ParseError> {
    forms_at(s, 0)
}

/// A form ends after where it starts.
pub proof fn lemma_form_advances(s: Seq<char>, pos: int)
    requires
        0 <= pos,
    ensures
        form_at(s, pos) matches Ok((_, next)) ==> pos < next <= s.len(),
    decreases s.len() - pos, 0int,
{
    if pos >= s.len() {
    } else if s[pos] == '(' {
        lemma_items_advance(s, pos + 1);
    } else if s[pos] == ')' || is_space(s[pos]) {
    } else if s[pos] == '\'' {
        lemma_form_advances(s, pos + 1);
    } else if s[pos] == '"' {
        lemma_string_end(s, pos + 1);
    } else {
        lemma_atom_end(s, pos + 1);
    }
}

/// A list ends after where its items start.
pub proof fn lemma_items_advance(s: Seq<char>, pos: int)
    requires
        0 <= pos,
    ensures
        items_at(s, pos) matches Ok((_, next)) ==> pos < next <= s.len(),
    decreases s.len() - pos, 1int,
{
    if pos >= s.len() {
    } else if is_space(s[pos]) {
        lemma_items_advance(s, pos + 1);
    } else if s[pos] == ')' {
    } else {
        lemma_form_advances(s, pos);
        match form_at(s, pos) {
            Ok((first, next)) => {
                if next > pos {
                    lemma_items_advance(s, next);
                }
            },
            Err(e) => {},
        }
    }
}

/// An atom ends at or after where it is looked for, inside the text.
pub proof fn lemma_atom_end(s: Seq<char>, pos: int)
    requires
        0 <= pos <= s.len(),
    ensures
        pos <= atom_end(s, pos) <= s.len(),
    decreases s.len() - pos,
{
    if pos < s.len() && !is_delimiter(s[pos]) {
        lemma_atom_end(s, pos + 1);
    }
}

/// The closing `"` of a string stands at or after where it is looked for.
pub proof fn lemma_string_end(s: Seq<char>, pos: int)
    requires
        0 <= pos <= s.len(),
    ensures
        string_end(s, pos) matches Some(end) ==> pos <= end < s.len() && s[end] == '"',
    decreases s.len() - pos,
{
    if pos < s.len() && s[pos] != '"' {
        lemma_string_end(s, pos + 1);
    }
}

fn space(c: char) -> (r: bool)
    ensures
        r == is_space(c),
{
    c == ' ' || c == '\t' || c == '\n' || c == '\r'
}

fn delimiter(c: char) -> (r: bool)
    ensures
        r == is_delimiter(c),
{
    space(c) || c == '(' || c == ')' || c == '"'
}

fn digit(c: char) -> (r: bool)
    ensures
        r == is_digit(c),
{
    '0' <= c && c <= '9'
}

/// The index after the digits that start at `pos`.
fn scan_digits(t: &Vec<char>, pos: usize) -> (r: usize)
    requires
        pos <= t.len(),
    ensures
        r == digits_end(t@, pos as int),
        pos <= r <= t.len(),
{
    let mut i: usize = pos;
    while i < t.len() && digit(t[i])
        invariant
            pos <= i <= t.len(),
            digits_end(t@, pos as int) == digits_end(t@, i as int),
        decreases t.len() - i,
    {
        i += 1;
    }
    i
}

fn letter(c: char, lower: char, upper: char) -> (r: bool)
    ensures
        r == is_letter(c, lower, upper),
{
    c == lower || c == upper
}

/// Whether `t` is one of the words for an infinity and for what is not a
/// number.
fn special_text(t: &Vec<char>) -> (r: bool)
    ensures
        r == is_special(t@),
{
    let start: usize = if t.len() > 0 && (t[0] == '+' || t[0] == '-') {
        1
    } else {
        0
    };
    let n = t.len() - start;
    if n == 3 {
        (letter(t[start], 'i', 'I') && letter(t[start + 1], 'n', 'N') && letter(
            t[start + 2],
            'f',
            'F',
        )) || (letter(t[start], 'n', 'N') && letter(t[start + 1], 'a', 'A') && letter(
            t[start + 2],
            'n',
            'N',
        ))
    } else if n == 8 {
        letter(t[start], 'i', 'I') && letter(t[start + 1], 'n', 'N') && letter(
            t[start + 2],
            'f',
            'F',
        ) && letter(t[start + 3], 'i', 'I') && letter(t[start + 4], 'n', 'N') && letter(
            t[start + 5],
            'i',
            'I',
        ) && letter(t[start + 6], 't', 'T') && letter(t[start + 7], 'y', 'Y')
    } else {
        false
    }
}

/// Whether the atom `t` is written as a number.
pub fn number_text(t: &Vec<char>) -> (r: bool)
    ensures
        r == is_number(t@),
{
    decimal_text(t) || special_text(t)
}

/// Whether the atom `t` is written as a decimal number.
fn decimal_text(t: &Vec<char>) -> (r: bool)
    ensures
        r == is_decimal(t@),
{
    let start: usize = if t.len() > 0 && (t[0] == '+' || t[0] == '-') {
        1
    } else {
        0
    };
    let whole_end = scan_digits(t, start);
    let dot = whole_end < t.len() && t[whole_end] == '.';
    let frac_end = if dot {
        scan_digits(t, whole_end + 1)
    } else {
        whole_end
    };
    let digits = if dot {
        (whole_end - start) + (frac_end - (whole_end + 1))
    } else {
        whole_end - start
    };
    if digits == 0 {
        false
    } else if frac_end < t.len() && (t[frac_end] == 'e' || t[frac_end] == 'E') {
        let exp_start: usize = if frac_end + 1 < t.len() && (t[frac_end + 1] == '+' || t[frac_end + 1] == '-') {
            frac_end + 2
        } else {
            frac_end + 1
        };
        let exp_end = scan_digits(t, exp_start);
        exp_end > exp_start && exp_end == t.len()
    } else {
        frac_end == t.len()
    }
}

/// The expression that the atom `chars[from..to]` stands for.
fn read_atom(chars: &Vec<char>, from: usize, to: usize) -> (r: Expression)
    requires
        from <= to <= chars.len(),
    ensures
        r@ == atom(chars@.subrange(from as int, to as int)),
{
    let text = from_chars(chars, from, to);
    let t = to_chars(text.as_str());
    let ghost tv = chars@.subrange(from as int, to as int);
    assert(t@ == tv);
    if t.len() == 3 && t[0] == 'n' && t[1] == 'i' && t[2] == 'l' {
        assert(tv =~= seq!['n', 'i', 'l']);
        Expression::Nil
    } else if t.len() == 2 && t[0] == '#' && t[1] == 't' {
        assert(tv =~= seq!['#', 't']);
        Expression::Bool(true)
    } else if t.len() == 2 && t[0] == '#' && t[1] == 'f' {
        assert(tv =~= seq!['#', 'f']);
        Expression::Bool(false)
    } else {
        assert(tv != seq!['n', 'i', 'l']) by {
            if tv == seq!['n', 'i', 'l'] {
                assert(seq!['n', 'i', 'l'].len() == 3);
                assert(seq!['n', 'i', 'l'][0] == 'n');
                assert(seq!['n', 'i', 'l'][1] == 'i');
                assert(seq!['n', 'i', 'l'][2] == 'l');
            }
        }
        assert(tv != seq!['#', 't']) by {
            if tv == seq!['#', 't'] {
                assert(seq!['#', 't'].len() == 2);
                assert(seq!['#', 't'][0] == '#');
                assert(seq!['#', 't'][1] == 't');
            }
        }
        assert(tv != seq!['#', 'f']) by {
            if tv == seq!['#', 'f'] {
                assert(seq!['#', 'f'].len() == 2);
                assert(seq!['#', 'f'][0] == '#');
                assert(seq!['#', 'f'][1] == 'f');
            }
        }
        if number_text(&t) {
            Expression::Number(text)
        } else {
            Expression::Symbol(text)
        }
    }
}

/// A parsed form and the index after it, as mathematical values.
pub open spec fn form_view(r: Result<(Expression, usize), ParseError>) -> Result<
    (Value, int),
    ParseError,
> {
    match r {
        Ok((e, next)) => Ok((e@, next as int)),
        Err(e) => Err(e),
    }
}

/// Parsed items and the index after them, as mathematical values.
pub open spec fn items_view(r: Result<(Vec<Expression>, usize), ParseError>) -> Result<
    (Seq<Value>, int),
    ParseError,
> {
    match r {
        Ok((v, next)) => Ok((values(v@), next as int)),
        Err(e) => Err(e),
    }
}

/// Parsed forms as mathematical values.
pub open spec fn forms_view(r: Result<Vec<Expression>, ParseError>) -> Result<
    Seq<Value>,
    ParseError,
> {
    match r {
        Ok(v) => Ok(values(v@)),
        Err(e) => Err(e),
    }
}

/// The items `done`, read so far, before what the rest of a list gives.
pub open spec fn items_after(done: Seq<Value>, rest: Result<(Seq<Value>, int), ParseError>) -> Result<
    (Seq<Value>, int),
    ParseError,
> {
    match rest {
        Ok((more, next)) => Ok((done + more, next)),
        Err(e) => Err(e),
    }
}

/// The forms `done`, read so far, before what the rest of a program gives.
pub open spec fn forms_after(done: Seq<Value>, rest: Result<Seq<Value>, ParseError>) -> Result<
    Seq<Value>,
    ParseError,
> {
    match rest {
        Ok(more) => Ok(done + more),
        Err(e) => Err(e),
    }
}

/// Reads the form that starts at `pos`.
fn read_form(chars: &Vec<char>, pos: usize) -> (r: Result<(Expression, usize), ParseError>)
    requires
        pos <= chars.len(),
    ensures
        form_view(r) == form_at(chars@, pos as int),
        r matches Ok((_, next)) ==> next <= chars.len(),
    decreases chars.len() - pos, 0int,
{
    if pos >= chars.len() {
        return Err(ParseError::UnexpectedEnd);
    }
    let c = chars[pos];
    if c == '(' {
        match read_items(chars, pos + 1) {
            Ok((items, next)) => Ok((Expression::List(items), next)),
            Err(e) => Err(e),
        }
    } else if c == ')' {
        Err(ParseError::UnexpectedClose)
    } else if space(c) {
        Err(ParseError::EmptyQuote)
    } else if c == '\'' {
        match read_form(chars, pos + 1) {
            Ok((inner, next)) => Ok((Expression::Quoted(Box::new(inner)), next)),
            Err(e) => Err(e),
        }
    } else if c == '"' {
        let mut i: usize = pos + 1;
        while i < chars.len() && chars[i] != '"'
            invariant
                pos + 1 <= i <= chars.len(),
                string_end(chars@, pos + 1) == string_end(chars@, i as int),
            decreases chars.len() - i,
        {
            i += 1;
        }
        if i >= chars.len() {
            Err(ParseError::UnexpectedEnd)
        } else {
            Ok((Expression::String(from_chars(chars, pos + 1, i)), i + 1))
        }
    } else {
        let mut i: usize = pos;
        while i < chars.len() && !delimiter(chars[i])
            invariant
                pos <= i <= chars.len(),
                atom_end(chars@, pos as int) == atom_end(chars@, i as int),
            decreases chars.len() - i,
        {
            i += 1;
        }
        Ok((read_atom(chars, pos, i), i))
    }
}

/// Reads the items of a list from `pos` up to its closing `)`.
fn read_items(chars: &Vec<char>, pos: usize) -> (r: Result<(Vec<Expression>, usize), ParseError>)
    requires
        pos <= chars.len(),
    ensures
        items_view(r) == items_at(chars@, pos as int),
        r matches Ok((_, next)) ==> next <= chars.len(),
    decreases chars.len() - pos, 1int,
{
    let mut items: Vec<Expression> = Vec::new();
    let mut i: usize = pos;
    assert(values(items@) =~= Seq::<Value>::empty());
    loop
        invariant
            pos <= i <= chars.len(),
            items_at(chars@, pos as int) == items_after(
                values(items@),
                items_at(chars@, i as int),
            ),
        decreases chars.len() - i,
    {
        if i >= chars.len() {
            return Err(ParseError::UnexpectedEnd);
        }
        let c = chars[i];
        if space(c) {
            i += 1;
        } else if c == ')' {
            assert(values(items@) + Seq::<Value>::empty() =~= values(items@));
            return Ok((items, i + 1));
        } else {
            match read_form(chars, i) {
                Ok((first, next)) => {
                    if next <= i {
                        return Err(ParseError::UnexpectedEnd);
                    }
                    proof {
                        lemma_values_push(items@, first);
                        let done = values(items@);
                        match items_at(chars@, next as int) {
                            Ok((rest, end)) => {
                                assert(done + (seq![first@] + rest) =~= done.push(first@) + rest);
                            },
                            Err(e) => {},
                        }
                    }
                    items.push(first);
                    i = next;
                },
                Err(e) => {
                    return Err(e);
                },
            }
        }
    }
}

/// Reads the program `input`: its forms in order.
pub fn parse(input: &str) -> (r: Result<Vec<Expression>, ParseError>)
    ensures
        forms_view(r) == program(input@),
{
    let chars = to_chars(input);
    let mut forms: Vec<Expression> = Vec::new();
    let mut i: usize = 0;
    assert(values(forms@) =~= Seq::<Value>::empty());
    while i < chars.len()
        invariant
            i <= chars.len(),
            chars@ == input@,
            program(input@) == forms_after(values(forms@), forms_at(chars@, i as int)),
        decreases chars.len() - i,
    {
        let c = chars[i];
        if space(c) {
            i += 1;
        } else {
            match read_form(&chars, i) {
                Ok((first, next)) => {
                    if next <= i {
                        return Err(ParseError::UnexpectedEnd);
                    }
                    proof {
                        lemma_values_push(forms@, first);
                        let done = values(forms@);
                        match forms_at(chars@, next as int) {
                            Ok(rest) => {
                                assert(done + (seq![first@] + rest) =~= done.push(first@) + rest);
                            },
                            Err(e) => {},
                        }
                    }
                    forms.push(first);
                    i = next;
                },
                Err(e) => {
                    return Err(e);
                },
            }
        }
    }
    assert(values(forms@) + Seq::<Value>::empty() =~= values(forms@));
    Ok(forms)
}

} // verus!
