//! Reading back what was printed: the printed form of a value without
//! functions in it reads as that value again.

use crate::expression::{render, render_each, Value};
use crate::parser::{
    atom, atom_end, digits_end, form_at, forms_at, is_decimal, is_delimiter, is_digit, is_letter,
    is_number, is_space, is_special, items_at, program, string_end,
};
use crate::text::{join, lemma_join_concat};
use vstd::prelude::*;

verus! {

/// Whether `t` can stand as an atom: it is not empty, does not start with
/// `'`, and holds no white space, parenthesis or double quote.
pub open spec fn atom_text(t: Seq<char>) -> bool {
    &&& t.len() > 0
    &&& t[0] != '\''
    &&& forall|i: int| 0 <= i < t.len() ==> !is_delimiter(#[trigger] t[i])
}

/// Whether `t` is one of the atoms `nil`, `#t` and `#f`.
pub open spec fn reserved(t: Seq<char>) -> bool {
    t == seq!['n', 'i', 'l'] || t == seq!['#', 't'] || t == seq!['#', 'f']
}

/// Whether the printed form of `v` says all of `v`: there is no function in
/// it, every number is written as a number, every symbol can stand as an
/// atom and is no number and no reserved atom, and no string holds a double
/// quote.
pub open spec fn printable(v: Value) -> bool
    decreases v,
{
    match v {
        Value::Bool(_) => true,
        Value::Nil => true,
        Value::Number(t) => is_number(t),
        Value::Symbol(s) => atom_text(s) && !reserved(s) && !is_number(s),
        Value::Str(s) => forall|i: int| 0 <= i < s.len() ==> #[trigger] s[i] != '"',
        Value::List(xs) => forall|i: int| 0 <= i < xs.len() ==> printable(#[trigger] xs[i]),
        Value::Quoted(x) => printable(*x),
        Value::Func(_) => false,
        Value::Function(_) => false,
    }
}

/// The text `t` stands in `s` from index `p` on.
pub open spec fn has_at(s: Seq<char>, p: int, t: Seq<char>) -> bool {
    &&& 0 <= p
    &&& p + t.len() <= s.len()
    &&& forall|i: int| 0 <= i < t.len() ==> s[p + i] == #[trigger] t[i]
}

/// At index `q` the text `s` ends, or a character stands that ends an atom.
pub open spec fn ends_at(s: Seq<char>, q: int) -> bool {
    q == s.len() || (0 <= q < s.len() && is_delimiter(s[q]))
}

/// The digits that start at `pos` are digits, and end inside the text.
proof fn lemma_digits(t: Seq<char>, pos: int)
    requires
        0 <= pos <= t.len(),
    ensures
        pos <= digits_end(t, pos) <= t.len(),
        forall|i: int| pos <= i < digits_end(t, pos) ==> is_digit(#[trigger] t[i]),
    decreases t.len() - pos,
{
    if pos < t.len() && is_digit(t[pos]) {
        lemma_digits(t, pos + 1);
    }
}

/// A text that is written as a number can stand as an atom and is none of
/// the reserved atoms.
pub proof fn lemma_number_is_atom(t: Seq<char>)
    requires
        is_number(t),
    ensures
        atom_text(t),
        !reserved(t),
{
    assert(seq!['n', 'i', 'l'][0] == 'n' && seq!['n', 'i', 'l'][1] == 'i');
    assert(seq!['n', 'i', 'l'].len() == 3);
    assert(seq!['#', 't'][0] == '#');
    assert(seq!['#', 'f'][0] == '#');
    if is_decimal(t) {
        lemma_decimal_is_atom(t);
    } else {
        let start: int = if t.len() > 0 && (t[0] == '+' || t[0] == '-') {
            1
        } else {
            0
        };
        assert forall|i: int| 0 <= i < t.len() implies !is_delimiter(#[trigger] t[i]) by {
            if i >= start {
                let k = i - start;
                assert(t[i] == t[start + k]);
                if k == 0 {
                } else if k == 1 {
                } else if k == 2 {
                } else if k == 3 {
                } else if k == 4 {
                } else if k == 5 {
                } else if k == 6 {
                } else {
                    assert(k == 7);
                }
            }
        }
    }
}

/// A text that is written as a decimal number can stand as an atom and is
/// none of the reserved atoms.
proof fn lemma_decimal_is_atom(t: Seq<char>)
    requires
        is_decimal(t),
    ensures
        atom_text(t),
        !reserved(t),
{
    let start: int = if t.len() > 0 && (t[0] == '+' || t[0] == '-') {
        1
    } else {
        0
    };
    if start > t.len() {
        assert(false);
    }
    lemma_digits(t, start);
    let whole_end = digits_end(t, start);
    let dot = whole_end < t.len() && t[whole_end] == '.';
    if dot {
        lemma_digits(t, whole_end + 1);
    }
    let frac_end = if dot {
        digits_end(t, whole_end + 1)
    } else {
        whole_end
    };
    let has_exp = frac_end < t.len() && (t[frac_end] == 'e' || t[frac_end] == 'E');
    let exp_start = if frac_end + 1 < t.len() && (t[frac_end + 1] == '+' || t[frac_end + 1] == '-') {
        frac_end + 2
    } else {
        frac_end + 1
    };
    if has_exp {
        lemma_digits(t, exp_start);
    }
    assert(t.len() > 0);
    assert forall|i: int| 0 <= i < t.len() implies !is_delimiter(#[trigger] t[i]) by {
        if i < start {
        } else if i < whole_end {
            assert(is_digit(t[i]));
        } else if dot && i == whole_end {
        } else if i < frac_end {
            assert(is_digit(t[i]));
        } else if has_exp {
            if i == frac_end {
            } else if i < exp_start {
            } else {
                assert(is_digit(t[i]));
            }
        }
    }
    // the first character is a sign, a digit or a dot
    if start == 0 {
        if whole_end > 0 {
            assert(is_digit(t[0]));
        } else {
            assert(dot);
        }
    }
    assert(t[0] != '\'');
    assert(t[0] != 'n' && t[0] != '#');
    assert(seq!['n', 'i', 'l'][0] == 'n');
    assert(seq!['#', 't'][0] == '#');
    assert(seq!['#', 'f'][0] == '#');
}

/// An atom that stands at `p` and is `n` characters long ends at `p + n`.
proof fn lemma_atom_scan(s: Seq<char>, p: int, n: int)
    requires
        0 <= p,
        0 <= n,
        p + n <= s.len(),
        forall|i: int| 0 <= i < n ==> !is_delimiter(#[trigger] s[p + i]),
        ends_at(s, p + n),
    ensures
        atom_end(s, p) == p + n,
    decreases n,
{
    if n > 0 {
        assert(!is_delimiter(s[p + 0]));
        assert forall|i: int| 0 <= i < n - 1 implies !is_delimiter(#[trigger] s[p + 1 + i]) by {
            assert(!is_delimiter(s[p + (i + 1)]));
        }
        lemma_atom_scan(s, p + 1, n - 1);
    }
}

/// A string of `n` characters without a double quote that stands at `p`
/// and is followed by one ends at `p + n`.
proof fn lemma_string_scan(s: Seq<char>, p: int, n: int)
    requires
        0 <= p,
        0 <= n,
        p + n < s.len(),
        forall|i: int| 0 <= i < n ==> #[trigger] s[p + i] != '"',
        s[p + n] == '"',
    ensures
        string_end(s, p) == Some(p + n),
    decreases n,
{
    if n > 0 {
        assert(s[p + 0] != '"');
        assert forall|i: int| 0 <= i < n - 1 implies #[trigger] s[p + 1 + i] != '"' by {
            assert(s[p + (i + 1)] != '"');
        }
        lemma_string_scan(s, p + 1, n - 1);
    }
}

/// The atom text `t`, standing at `p` in `s` and ending there, reads as
/// `atom(t)`.
proof fn lemma_atom_round_trip(s: Seq<char>, p: int, t: Seq<char>)
    requires
        atom_text(t),
        has_at(s, p, t),
        ends_at(s, p + t.len()),
    ensures
        form_at(s, p) == Ok::<(Value, int), crate::parser::ParseError>((atom(t), p + t.len())),
{
    assert(s[p + 0] == t[0]);
    assert(!is_delimiter(t[0]));
    assert forall|i: int| 0 <= i < t.len() implies !is_delimiter(#[trigger] s[p + i]) by {
        assert(s[p + i] == t[i]);
        assert(!is_delimiter(t[i]));
    }
    lemma_atom_scan(s, p, t.len() as int);
    assert(s.subrange(p, p + t.len()) =~= t) by {
        assert forall|i: int| 0 <= i < t.len() implies s.subrange(p, p + t.len())[i] == t[i] by {
            assert(s[p + i] == t[i]);
        }
    }
}

/// The items `xs`, printed with one space between neighbours and a `)`
/// after the last, read as `xs` when the text stands at `p` in `s`.
proof fn lemma_items_round_trip(s: Seq<char>, p: int, xs: Seq<Value>)
    requires
        forall|i: int| 0 <= i < xs.len() ==> printable(#[trigger] xs[i]),
        has_at(s, p, join(render_each(xs, true), seq![' ']) + seq![')']),
    ensures
        items_at(s, p) == Ok::<(Seq<Value>, int), crate::parser::ParseError>(
            (xs, p + join(render_each(xs, true), seq![' ']).len() + 1),
        ),
    decreases xs, 0int,
{
    let texts = render_each(xs, true);
    let all = join(texts, seq![' ']) + seq![')'];
    if xs.len() == 0 {
        assert(all[0] == ')');
        assert(s[p + 0] == all[0]);
        assert(xs =~= Seq::<Value>::empty());
    } else {
        let first = render(xs[0], true);
        let rest = xs.skip(1);
        let rest_texts = render_each(rest, true);
        assert(texts[0] == first);
        assert(rest_texts =~= texts.skip(1));
        assert(printable(xs[0]));
        assert forall|i: int| 0 <= i < rest.len() implies printable(#[trigger] rest[i]) by {
            assert(rest[i] == xs[i + 1]);
        }
        if xs.len() == 1 {
            assert(join(texts, seq![' ']) == first);
            assert(all =~= first + seq![')']);
            assert(has_at(s, p, first)) by {
                assert forall|i: int| 0 <= i < first.len() implies s[p + i] == #[trigger] first[i] by {
                    assert(all[i] == first[i]);
                    assert(s[p + i] == all[i]);
                }
            }
            assert(s[p + first.len()] == ')') by {
                assert(all[first.len() as int] == ')');
                assert(s[p + first.len()] == all[first.len() as int]);
            }
            lemma_form_round_trip(s, p, xs[0]);
            assert(items_at(s, p + first.len()) == Ok::<
                (Seq<Value>, int),
                crate::parser::ParseError,
            >((Seq::empty(), p + first.len() + 1)));
            assert(seq![xs[0]] + Seq::<Value>::empty() =~= xs);
        } else {
            assert(texts =~= seq![first] + rest_texts);
            lemma_join_concat(seq![first], rest_texts, seq![' ']);
            assert(join(seq![first], seq![' ']) == first);
            let tail = join(rest_texts, seq![' ']) + seq![')'];
            assert(all =~= first + seq![' '] + tail);
            assert(has_at(s, p, first)) by {
                assert forall|i: int| 0 <= i < first.len() implies s[p + i] == #[trigger] first[i] by {
                    assert(all[i] == first[i]);
                    assert(s[p + i] == all[i]);
                }
            }
            assert(s[p + first.len()] == ' ') by {
                assert(all[first.len() as int] == ' ');
                assert(s[p + first.len()] == all[first.len() as int]);
            }
            lemma_form_round_trip(s, p, xs[0]);
            let q = p + first.len() + 1;
            assert(has_at(s, q, tail)) by {
                assert forall|i: int| 0 <= i < tail.len() implies s[q + i] == #[trigger] tail[i] by {
                    assert(all[first.len() + 1 + i] == tail[i]);
                    assert(s[p + (first.len() + 1 + i)] == all[first.len() + 1 + i]);
                }
            }
            lemma_items_round_trip(s, q, rest);
            assert(items_at(s, p + first.len()) == items_at(s, q));
            assert(seq![xs[0]] + rest =~= xs);
        }
    }
}

/// The printed form of a printable value, standing at `p` in `s` and
/// ending there, reads as that value.
pub proof fn lemma_form_round_trip(s: Seq<char>, p: int, v: Value)
    requires
        printable(v),
        has_at(s, p, render(v, true)),
        ends_at(s, p + render(v, true).len()),
    ensures
        form_at(s, p) == Ok::<(Value, int), crate::parser::ParseError>(
            (v, p + render(v, true).len()),
        ),
        render(v, true).len() > 0,
        !is_space(render(v, true)[0]),
        render(v, true)[0] != ')',
    decreases v, 1int,
{
    let r = render(v, true);
    match v {
        Value::Bool(b) => {
            assert(r[0] == '#');
            assert(r.len() == 2);
            assert(atom_text(r)) by {
                assert forall|i: int| 0 <= i < r.len() implies !is_delimiter(#[trigger] r[i]) by {
                    if b {
                        assert(r[0] == '#' && r[1] == 't');
                    } else {
                        assert(r[0] == '#' && r[1] == 'f');
                    }
                }
            }
            lemma_atom_round_trip(s, p, r);
            assert(seq!['n', 'i', 'l'].len() == 3);
            assert(seq!['#', 't'][1] == 't');
            assert(seq!['#', 'f'][1] == 'f');
            if b {
                assert(r =~= seq!['#', 't']);
            } else {
                assert(r =~= seq!['#', 'f']);
                assert(r[1] == 'f');
            }
        },
        Value::Nil => {
            assert(r =~= seq!['n', 'i', 'l']);
            assert(r[0] == 'n' && r[1] == 'i' && r[2] == 'l');
            assert(atom_text(r));
            lemma_atom_round_trip(s, p, r);
        },
        Value::Number(t) => {
            lemma_number_is_atom(t);
            assert(!is_delimiter(t[0]));
            lemma_atom_round_trip(s, p, t);
        },
        Value::Symbol(t) => {
            assert(!is_delimiter(t[0]));
            lemma_atom_round_trip(s, p, t);
        },
        Value::Str(t) => {
            assert(r =~= seq!['"'] + t + seq!['"']);
            assert(r[0] == '"');
            assert(s[p + 0] == r[0]);
            assert forall|i: int| 0 <= i < t.len() implies #[trigger] s[p + 1 + i] != '"' by {
                assert(r[i + 1] == t[i]);
                assert(s[p + (i + 1)] == r[i + 1]);
            }
            assert(s[p + 1 + t.len()] == '"') by {
                assert(r[t.len() as int + 1] == '"');
                assert(s[p + (t.len() as int + 1)] == r[t.len() as int + 1]);
            }
            lemma_string_scan(s, p + 1, t.len() as int);
            assert(s.subrange(p + 1, p + 1 + t.len()) =~= t) by {
                assert forall|i: int| 0 <= i < t.len() implies s.subrange(
                    p + 1,
                    p + 1 + t.len(),
                )[i] == t[i] by {
                    assert(r[i + 1] == t[i]);
                    assert(s[p + (i + 1)] == r[i + 1]);
                }
            }
        },
        Value::List(xs) => {
            let inner = join(render_each(xs, true), seq![' ']);
            assert(r =~= seq!['('] + inner + seq![')']);
            assert(r[0] == '(');
            assert(s[p + 0] == r[0]);
            let tail = inner + seq![')'];
            assert(has_at(s, p + 1, tail)) by {
                assert forall|i: int| 0 <= i < tail.len() implies s[p + 1 + i] == #[trigger] tail[i] by {
                    assert(r[i + 1] == tail[i]);
                    assert(s[p + (i + 1)] == r[i + 1]);
                }
            }
            lemma_items_round_trip(s, p + 1, xs);
        },
        Value::Quoted(x) => {
            let inner = render(*x, true);
            assert(r =~= seq!['\''] + inner);
            assert(r[0] == '\'');
            assert(s[p + 0] == r[0]);
            assert(has_at(s, p + 1, inner)) by {
                assert forall|i: int| 0 <= i < inner.len() implies s[p + 1 + i] == #[trigger] inner[i] by {
                    assert(r[i + 1] == inner[i]);
                    assert(s[p + (i + 1)] == r[i + 1]);
                }
            }
            lemma_form_round_trip(s, p + 1, *x);
        },
        Value::Func(_) => {},
        Value::Function(_) => {},
    }
}

/// Reading the printed form of a printable value gives a program of one
/// form, which is that value.
pub proof fn lemma_round_trip(v: Value)
    requires
        printable(v),
    ensures
        program(render(v, true)) == Ok::<Seq<Value>, crate::parser::ParseError>(seq![v]),
{
    let r = render(v, true);
    assert(has_at(r, 0, r));
    lemma_form_round_trip(r, 0, v);
    assert(forms_at(r, r.len() as int) == Ok::<Seq<Value>, crate::parser::ParseError>(
        Seq::empty(),
    ));
    assert(seq![v] + Seq::<Value>::empty() =~= seq![v]);
}

} // verus!
