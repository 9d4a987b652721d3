//! Tokens: the parentheses and the words between white space, and the
//! reading of one list from them.

use crate::expression::{lemma_values_push, values, Expression, Value};
use crate::parser::{is_number, number_text};
use crate::text::{from_chars, to_chars};
use vstd::prelude::*;

verus! {

broadcast use crate::expression::group_values;

/// Whether `c` has the Unicode property `White_Space`: the controls from
/// tab to carriage return, the space, next line, the no-break spaces, the
/// Ogham space mark, the spaces of fixed width from en quad to hair space,
/// the line and paragraph separators, the medium mathematical space and
/// the ideographic space.
pub open spec fn white_space(c: char) -> bool {
    ||| ('\u{9}' <= c && c <= '\u{d}')
    ||| c == ' '
    ||| c == '\u{85}'
    ||| c == '\u{a0}'
    ||| c == '\u{1680}'
    ||| ('\u{2000}' <= c && c <= '\u{200a}')
    ||| c == '\u{2028}'
    ||| c == '\u{2029}'
    ||| c == '\u{202f}'
    ||| c == '\u{205f}'
    ||| c == '\u{3000}'
}

/// `char::is_whitespace` returns whether the character has the Unicode
/// property `White_Space`, which is the set of code points that
/// [`white_space`] lists.
pub assume_specification[ char::is_whitespace ](c: char) -> (r: bool)
    ensures
        r == white_space(c),
;

/// A piece of a program text.
#[derive(Debug, Clone, PartialEq, Eq)]
pub enum Token {
    OpenParen,
    CloseParen,
    /// A word that is written as a decimal number, by its text.
    Number(String),
    /// Any other word.
    Symbol(String),
}

/// The mathematical value of a [`Token`].
pub enum Lexeme {
    OpenParen,
    CloseParen,
    Number(Seq<char>),
    Symbol(Seq<char>),
}

impl View for Token {
    type V = Lexeme;

    open spec fn view(&self) -> Lexeme {
        match self {
            Token::OpenParen => Lexeme::OpenParen,
            Token::CloseParen => Lexeme::CloseParen,
            Token::Number(t) => Lexeme::Number(t@),
            Token::Symbol(t) => Lexeme::Symbol(t@),
        }
    }
}

/// The lexemes of a sequence of tokens.
pub open spec fn lexemes(s: Seq<Token>) -> Seq<Lexeme> {
    Seq::new(s.len(), |i: int| s[i]@)
}

/// Whether `c` ends a word.
pub open spec fn ends_word(c: char) -> bool {
    white_space(c) || c == '(' || c == ')'
}

/// The index of the first character from `pos` on that ends a word, or the
/// length of `s`.
pub open spec fn word_end(s: Seq<char>, pos: int) -> int
    decreases s.len() - pos,
{
    if pos < 0 || pos >= s.len() || ends_word(s[pos]) {
        pos
    } else {
        word_end(s, pos + 1)
    }
}

/// The lexeme of the word `t`.
pub open spec fn word(t: Seq<char>) -> Lexeme {
    if is_number(t) {
        Lexeme::Number(t)
    } else {
        Lexeme::Symbol(t)
    }
}

/// The lexemes of `s` from `pos` on: each parenthesis is one, and so is
/// each longest run of other characters without white space.
pub open spec fn lexemes_at(s: Seq<char>, pos: int) -> Seq<Lexeme>
    decreases s.len() - pos,
{
    if pos < 0 || pos >= s.len() {
        Seq::empty()
    } else if white_space(s[pos]) {
        lexemes_at(s, pos + 1)
    } else if s[pos] == '(' {
        seq![Lexeme::OpenParen] + lexemes_at(s, pos + 1)
    } else if s[pos] == ')' {
        seq![Lexeme::CloseParen] + lexemes_at(s, pos + 1)
    } else {
        let end = word_end(s, pos + 1);
        if end <= pos || end > s.len() {
            Seq::empty()
        } else {
            seq![word(s.subrange(pos, end))] + lexemes_at(s, end)
        }
    }
}

impl Token {
    /// The tokens of `expr`. Every text has tokens: this never fails.
    pub fn tokenize(expr: &str) -> (r: Result<Vec<Token>, String>)
        ensures
            r matches Ok(tokens) && lexemes(tokens@) == lexemes_at(expr@, 0),
    {
        let chars = to_chars(expr);
        let mut tokens: Vec<Token> = Vec::new();
        let mut i: usize = 0;
        assert(lexemes(tokens@) =~= Seq::<Lexeme>::empty());
        while i < chars.len()
            invariant
                i <= chars.len(),
                chars@ == expr@,
                lexemes_at(expr@, 0) == lexemes(tokens@) + lexemes_at(expr@, i as int),
            decreases chars.len() - i,
        {
            let ghost done = lexemes(tokens@);
            let c = chars[i];
            if c.is_whitespace() {
                i += 1;
            } else if c == '(' {
                tokens.push(Token::OpenParen);
                assert(lexemes(tokens@) =~= done.push(Lexeme::OpenParen));
                assert(done + (seq![Lexeme::OpenParen] + lexemes_at(expr@, i + 1))
                    =~= done.push(Lexeme::OpenParen) + lexemes_at(expr@, i + 1));
                i += 1;
            } else if c == ')' {
                tokens.push(Token::CloseParen);
                assert(lexemes(tokens@) =~= done.push(Lexeme::CloseParen));
                assert(done + (seq![Lexeme::CloseParen] + lexemes_at(expr@, i + 1))
                    =~= done.push(Lexeme::CloseParen) + lexemes_at(expr@, i + 1));
                i += 1;
            } else {
                let mut end: usize = i + 1;
                while end < chars.len() && !(chars[end].is_whitespace() || chars[end] == '('
                    || chars[end] == ')')
                    invariant
                        i < end <= chars.len(),
                        word_end(chars@, i + 1) == word_end(chars@, end as int),
                    decreases chars.len() - end,
                {
                    end += 1;
                }
                let text = from_chars(&chars, i, end);
                let letters = to_chars(text.as_str());
                let token = if number_text(&letters) {
                    Token::Number(text)
                } else {
                    Token::Symbol(text)
                };
                assert(token@ == word(expr@.subrange(i as int, end as int)));
                tokens.push(token);
                assert(lexemes(tokens@) =~= done.push(token@));
                assert(done + (seq![token@] + lexemes_at(expr@, end as int)) =~= done.push(token@)
                    + lexemes_at(expr@, end as int));
                i = end;
            }
        }
        assert(lexemes(tokens@) + Seq::<Lexeme>::empty() =~= lexemes(tokens@));
        Ok(tokens)
    }

    /// The text of the token.
    pub fn to_string(&self) -> (r: String)
        ensures
            r@ == match self@ {
                Lexeme::OpenParen => seq!['('],
                Lexeme::CloseParen => seq![')'],
                Lexeme::Number(t) => t,
                Lexeme::Symbol(t) => t,
            },
    {
        proof {
            reveal_strlit("(");
            reveal_strlit(")");
        }
        match self {
            Token::OpenParen => {
                let r = "(".to_owned();
                assert(r@ =~= seq!['(']);
                r
            },
            Token::CloseParen => {
                let r = ")".to_owned();
                assert(r@ =~= seq![')']);
                r
            },
            Token::Number(t) => t.clone(),
            Token::Symbol(t) => t.clone(),
        }
    }
}

/// Why tokens are no list.
#[derive(Debug, Clone, Copy, PartialEq, Eq, Structural)]
pub enum TokenError {
    /// The tokens do not start with `(`.
    ExpectedOpenParen,
}

/// The items of a list from the lexeme at `pos` up to the `)` that closes
/// it, or to the end of the lexemes, and the index after them.
pub open spec fn list_at(t: Seq<Lexeme>, pos: int) -> (Seq<Value>, int)
    decreases t.len() - pos,
{
    if pos < 0 || pos >= t.len() {
        (Seq::empty(), pos)
    } else {
        match t[pos] {
            Lexeme::CloseParen => (Seq::empty(), pos + 1),
            Lexeme::Number(n) => {
                let (rest, end) = list_at(t, pos + 1);
                (seq![Value::Number(n)] + rest, end)
            },
            Lexeme::Symbol(s) => {
                let (rest, end) = list_at(t, pos + 1);
                (seq![Value::Symbol(s)] + rest, end)
            },
            Lexeme::OpenParen => {
                let (inner, next) = list_at(t, pos + 1);
                if next <= pos || next > t.len() {
                    (seq![Value::List(inner)], t.len() as int)
                } else {
                    let (rest, end) = list_at(t, next);
                    (seq![Value::List(inner)] + rest, end)
                }
            },
        }
    }
}

/// The list that the lexemes `t` are: they start with `(`, and the list
/// goes to the matching `)`, or to the end if there is none. What follows
/// the list is ignored.
pub open spec fn list_of(t: Seq<Lexeme>) -> Result<Value, TokenError> {
    if t.len() > 0 && t[0] is OpenParen {
        Ok(Value::List(list_at(t, 1).0))
    } else {
        Err(TokenError::ExpectedOpenParen)
    }
}

/// A list ends after where it starts, inside the lexemes.
pub proof fn lemma_list_advances(t: Seq<Lexeme>, pos: int)
    requires
        0 <= pos <= t.len(),
    ensures
        pos <= list_at(t, pos).1 <= t.len(),
        pos < t.len() ==> pos < list_at(t, pos).1,
    decreases t.len() - pos,
{
    if pos < t.len() {
        match t[pos] {
            Lexeme::CloseParen => {},
            Lexeme::Number(n) => {
                lemma_list_advances(t, pos + 1);
            },
            Lexeme::Symbol(s) => {
                lemma_list_advances(t, pos + 1);
            },
            Lexeme::OpenParen => {
                lemma_list_advances(t, pos + 1);
                let next = list_at(t, pos + 1).1;
                if !(next <= pos || next > t.len()) {
                    lemma_list_advances(t, next);
                }
            },
        }
    }
}

/// Reads the items of a list from the token at `pos` on.
fn read_list(tokens: &Vec<Token>, pos: usize) -> (r: (Vec<Expression>, usize))
    requires
        pos <= tokens.len(),
    ensures
        (values(r.0@), r.1 as int) == list_at(lexemes(tokens@), pos as int),
        pos <= r.1 <= tokens.len(),
    decreases tokens.len() - pos,
{
    let ghost t = lexemes(tokens@);
    let mut items: Vec<Expression> = Vec::new();
    let mut i: usize = pos;
    assert(values(items@) =~= Seq::<Value>::empty());
    loop
        invariant
            pos <= i <= tokens.len(),
            t == lexemes(tokens@),
            list_at(t, pos as int) == (
                values(items@) + list_at(t, i as int).0,
                list_at(t, i as int).1,
            ),
        decreases tokens.len() - i,
    {
        let ghost done = values(items@);
        if i >= tokens.len() {
            assert(done + Seq::<Value>::empty() =~= done);
            return (items, i);
        }
        assert(t[i as int] == tokens[i as int]@);
        match &tokens[i] {
            Token::CloseParen => {
                assert(done + Seq::<Value>::empty() =~= done);
                return (items, i + 1);
            },
            Token::Number(n) => {
                let e = Expression::Number(n.clone());
                proof {
                    lemma_values_push(items@, e);
                    assert(done + (seq![e@] + list_at(t, i + 1).0) =~= done.push(e@) + list_at(
                        t,
                        i + 1,
                    ).0);
                }
                items.push(e);
                i += 1;
            },
            Token::Symbol(s) => {
                let e = Expression::Symbol(s.clone());
                proof {
                    lemma_values_push(items@, e);
                    assert(done + (seq![e@] + list_at(t, i + 1).0) =~= done.push(e@) + list_at(
                        t,
                        i + 1,
                    ).0);
                }
                items.push(e);
                i += 1;
            },
            Token::OpenParen => {
                let (inner, next) = read_list(tokens, i + 1);
                let e = Expression::List(inner);
                proof {
                    lemma_list_advances(t, i + 1);
                    lemma_values_push(items@, e);
                    assert(done + (seq![e@] + list_at(t, next as int).0) =~= done.push(e@)
                        + list_at(t, next as int).0);
                }
                items.push(e);
                i = next;
            },
        }
    }
}

/// Reads one list from `tokens`.
pub fn parse_token_list(tokens: &Vec<Token>) -> (r: Result<Expression, TokenError>)
    ensures
        match r {
            Ok(e) => list_of(lexemes(tokens@)) == Ok::<Value, TokenError>(e@),
            Err(e) => list_of(lexemes(tokens@)) == Err::<Value, TokenError>(e),
        },
{
    if tokens.len() == 0 {
        return Err(TokenError::ExpectedOpenParen);
    }
    assert(lexemes(tokens@)[0] == tokens[0]@);
    match &tokens[0] {
        Token::OpenParen => {
            let (items, _) = read_list(tokens, 1);
            Ok(Expression::List(items))
        },
        _ => Err(TokenError::ExpectedOpenParen),
    }
}

} // verus!
