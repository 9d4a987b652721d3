//! Character-level helpers: conversion between strings and character
//! vectors, splitting and joining of `::`-separated paths, the lexicographic
//! order on names, and decimal numerals.

use vstd::prelude::*;

verus! {

/// `String::push` appends one character to the end of the string.
pub assume_specification[ std::string::String::push ](s: &mut std::string::String, c: char)
    ensures
        final(s)@ == old(s)@.push(c),
;

/// The characters of `s`, in order.
pub fn to_chars(s: &str) -> (r: Vec<char>)
    ensures
        r@ == s@,
{
    let mut out: Vec<char> = Vec::new();
    for c in it: s.chars()
        invariant
            out@ == it.seq().take(it.index() as int),
            it.seq() == s@,
    {
        out.push(c);
    }
    out
}

/// The string made of the characters `v[from..to]`.
pub fn from_chars(v: &Vec<char>, from: usize, to: usize) -> (r: String)
    requires
        from <= to <= v.len(),
    ensures
        r@ == v@.subrange(from as int, to as int),
{
    let mut out = String::new();
    let mut i: usize = from;
    while i < to
        invariant
            from <= i <= to <= v.len(),
            out@ == v@.subrange(from as int, i as int),
        decreases to - i,
    {
        out.push(v[i]);
        i += 1;
    }
    out
}

/// A copy of `v` in which every string has the same characters.
pub fn copy_strings(v: &Vec<String>) -> (r: Vec<String>)
    ensures
        strings_view(r@) == strings_view(v@),
{
    let mut out: Vec<String> = Vec::new();
    let mut i: usize = 0;
    while i < v.len()
        invariant
            i <= v.len(),
            out.len() == i,
            forall|j: int| 0 <= j < i ==> out[j]@ == v[j]@,
        decreases v.len() - i,
    {
        out.push(v[i].clone());
        i += 1;
    }
    assert(strings_view(out@) =~= strings_view(v@));
    out
}

/// The character sequences of a sequence of strings.
pub open spec fn strings_view(v: Seq<String>) -> Seq<Seq<char>> {
    Seq::new(v.len(), |i: int| v[i]@)
}

/// Whether the two-character separator `::` starts at index `i` of `s`.
pub open spec fn is_sep_at(s: Seq<char>, i: int) -> bool {
    0 <= i && i + 1 < s.len() && s[i] == ':' && s[i + 1] == ':'
}

/// The fragments of `s` that a left-to-right scan from `i` produces, where
/// `start` is the index at which the current fragment began.
pub open spec fn split_from(s: Seq<char>, start: int, i: int) -> Seq<Seq<char>>
    decreases s.len() - i,
{
    if i >= s.len() {
        seq![s.subrange(start, s.len() as int)]
    } else if is_sep_at(s, i) {
        seq![s.subrange(start, i)] + split_from(s, i + 2, i + 2)
    } else {
        split_from(s, start, i + 1)
    }
}

/// The fragments between the non-overlapping occurrences of `::` in `s`,
/// found from left to right. There is always at least one fragment.
pub open spec fn split_path(s: Seq<char>) -> Seq<Seq<char>> {
    split_from(s, 0, 0)
}

/// The fragments joined with `sep` between each neighbouring pair.
pub open spec fn join(frags: Seq<Seq<char>>, sep: Seq<char>) -> Seq<char>
    decreases frags.len(),
{
    if frags.len() == 0 {
        Seq::empty()
    } else if frags.len() == 1 {
        frags[0]
    } else {
        join(frags.drop_last(), sep) + sep + frags.last()
    }
}

/// The separator `::` as a character sequence.
pub open spec fn sep() -> Seq<char> {
    seq![':', ':']
}

/// Splits `s` at every `::`.
pub fn split(s: &str) -> (r: Vec<String>)
    ensures
        strings_view(r@) == split_path(s@),
        r.len() >= 1,
{
    let chars = to_chars(s);
    let mut out: Vec<String> = Vec::new();
    let mut start: usize = 0;
    let mut i: usize = 0;
    while i < chars.len()
        invariant
            start <= i <= chars.len(),
            chars@ == s@,
            split_path(s@) == strings_view(out@) + split_from(s@, start as int, i as int),
        decreases chars.len() - i,
    {
        if chars[i] == ':' && i + 1 < chars.len() && chars[i + 1] == ':' {
            let frag = from_chars(&chars, start, i);
            proof {
                let before = strings_view(out@);
                assert(strings_view(out@.push(frag)) =~= before + seq![s@.subrange(
                    start as int,
                    i as int,
                )]);
                assert(before + (seq![s@.subrange(start as int, i as int)] + split_from(
                    s@,
                    i + 2,
                    i + 2,
                )) =~= (before + seq![s@.subrange(start as int, i as int)]) + split_from(
                    s@,
                    i + 2,
                    i + 2,
                ));
            }
            out.push(frag);
            i += 2;
            start = i;
        } else {
            i += 1;
        }
    }
    let frag = from_chars(&chars, start, chars.len());
    proof {
        assert(strings_view(out@.push(frag)) =~= strings_view(out@) + seq![s@.subrange(
            start as int,
            s@.len() as int,
        )]);
    }
    out.push(frag);
    out
}

/// Joins the strings with `sep` between each neighbouring pair.
pub fn join_strings(frags: &Vec<String>, sep: &str) -> (r: String)
    ensures
        r@ == join(strings_view(frags@), sep@),
{
    let mut out = String::new();
    let mut i: usize = 0;
    while i < frags.len()
        invariant
            i <= frags.len(),
            out@ == join(strings_view(frags@).take(i as int), sep@),
        decreases frags.len() - i,
    {
        proof {
            let all = strings_view(frags@);
            assert(all.take(i + 1).drop_last() =~= all.take(i as int));
            assert(all.take(i + 1).last() == frags[i as int]@);
            if i == 0 {
                assert(out@ + frags[0]@ =~= frags[0]@);
            }
        }
        if i > 0 {
            out.append(sep);
        }
        out.append(frags[i].as_str());
        i += 1;
    }
    proof {
        assert(strings_view(frags@).take(frags.len() as int) =~= strings_view(frags@));
    }
    out
}

/// Joining the fragments of a split with `::` gives back the text that was
/// split.
pub proof fn lemma_join_split(s: Seq<char>)
    ensures
        join(split_path(s), sep()) == s,
{
    lemma_join_split_from(s, 0, 0);
    assert(s.subrange(0, s.len() as int) =~= s);
}

proof fn lemma_join_split_from(s: Seq<char>, start: int, i: int)
    requires
        0 <= start <= i <= s.len(),
    ensures
        join(split_from(s, start, i), sep()) == s.subrange(start, s.len() as int),
        split_from(s, start, i).len() >= 1,
    decreases s.len() - i,
{
    if i >= s.len() {
    } else if is_sep_at(s, i) {
        lemma_join_split_from(s, i + 2, i + 2);
        let head = seq![s.subrange(start, i)];
        let tail = split_from(s, i + 2, i + 2);
        lemma_join_concat(head, tail, sep());
        assert(sep() =~= s.subrange(i, i + 2));
        assert(s.subrange(start, i) + s.subrange(i, i + 2) + s.subrange(i + 2, s.len() as int)
            =~= s.subrange(start, s.len() as int));
    } else {
        lemma_join_split_from(s, start, i + 1);
    }
}

/// Joining a concatenation of two non-empty runs of fragments joins each run
/// and puts one separator between them.
pub proof fn lemma_join_concat(a: Seq<Seq<char>>, b: Seq<Seq<char>>, sep: Seq<char>)
    requires
        a.len() >= 1,
        b.len() >= 1,
    ensures
        join(a + b, sep) == join(a, sep) + sep + join(b, sep),
    decreases b.len(),
{
    if b.len() == 1 {
        assert((a + b).drop_last() =~= a);
        assert((a + b).last() == b[0]);
    } else {
        lemma_join_concat(a, b.drop_last(), sep);
        assert((a + b).drop_last() =~= a + b.drop_last());
        assert((a + b).last() == b.last());
        assert(join(a, sep) + sep + join(b.drop_last(), sep) + sep + b.last() =~= join(a, sep) + sep
            + (join(b.drop_last(), sep) + sep + b.last()));
    }
}

/// How one name stands to another in an order.
#[derive(Clone, Copy, Debug, PartialEq, Eq)]
pub enum Rank {
    Before,
    Same,
    After,
}

/// The order of two characters by their code points.
pub open spec fn char_lt(a: char, b: char) -> bool {
    (a as int) < (b as int)
}

/// The lexicographic order on character sequences, by code point; a proper
/// prefix comes before the longer text.
pub open spec fn str_lt(a: Seq<char>, b: Seq<char>) -> bool
    decreases a.len(),
{
    if b.len() == 0 {
        false
    } else if a.len() == 0 {
        true
    } else if a[0] != b[0] {
        char_lt(a[0], b[0])
    } else {
        str_lt(a.skip(1), b.skip(1))
    }
}

/// The lexicographic order on sequences of names, each pair of names compared
/// with `str_lt`.
pub open spec fn frags_lt(a: Seq<Seq<char>>, b: Seq<Seq<char>>) -> bool
    decreases a.len(),
{
    if b.len() == 0 {
        false
    } else if a.len() == 0 {
        true
    } else if a[0] != b[0] {
        str_lt(a[0], b[0])
    } else {
        frags_lt(a.skip(1), b.skip(1))
    }
}

/// No text comes before itself.
pub proof fn lemma_str_lt_irreflexive(a: Seq<char>)
    ensures
        !str_lt(a, a),
    decreases a.len(),
{
    if a.len() > 0 {
        lemma_str_lt_irreflexive(a.skip(1));
    }
}

/// The order on texts is transitive.
pub proof fn lemma_str_lt_transitive(a: Seq<char>, b: Seq<char>, c: Seq<char>)
    requires
        str_lt(a, b),
        str_lt(b, c),
    ensures
        str_lt(a, c),
    decreases a.len(),
{
    if a.len() > 0 && a[0] == b[0] && b[0] == c[0] {
        lemma_str_lt_transitive(a.skip(1), b.skip(1), c.skip(1));
    }
}

/// Any two texts are equal or ordered one way or the other.
pub proof fn lemma_str_lt_total(a: Seq<char>, b: Seq<char>)
    ensures
        str_lt(a, b) || a == b || str_lt(b, a),
    decreases a.len(),
{
    if a.len() == 0 || b.len() == 0 {
        if a.len() == 0 && b.len() == 0 {
            assert(a =~= b);
        }
    } else if a[0] == b[0] {
        lemma_str_lt_total(a.skip(1), b.skip(1));
        if a.skip(1) == b.skip(1) {
            assert(a =~= seq![a[0]] + a.skip(1));
            assert(b =~= seq![b[0]] + b.skip(1));
        }
    }
}

/// No sequence of names comes before itself.
pub proof fn lemma_frags_lt_irreflexive(a: Seq<Seq<char>>)
    ensures
        !frags_lt(a, a),
    decreases a.len(),
{
    if a.len() > 0 {
        lemma_frags_lt_irreflexive(a.skip(1));
    }
}

/// The order on sequences of names is transitive.
pub proof fn lemma_frags_lt_transitive(a: Seq<Seq<char>>, b: Seq<Seq<char>>, c: Seq<Seq<char>>)
    requires
        frags_lt(a, b),
        frags_lt(b, c),
    ensures
        frags_lt(a, c),
    decreases a.len(),
{
    if a.len() > 0 {
        if a[0] == b[0] && b[0] == c[0] {
            lemma_frags_lt_transitive(a.skip(1), b.skip(1), c.skip(1));
        } else if a[0] != b[0] && b[0] != c[0] {
            lemma_str_lt_transitive(a[0], b[0], c[0]);
            lemma_str_lt_irreflexive(a[0]);
        }
    }
}

/// Any two sequences of names are equal or ordered one way or the other.
pub proof fn lemma_frags_lt_total(a: Seq<Seq<char>>, b: Seq<Seq<char>>)
    ensures
        frags_lt(a, b) || a == b || frags_lt(b, a),
    decreases a.len(),
{
    if a.len() == 0 || b.len() == 0 {
        if a.len() == 0 && b.len() == 0 {
            assert(a =~= b);
        }
    } else if a[0] == b[0] {
        lemma_frags_lt_total(a.skip(1), b.skip(1));
        if a.skip(1) == b.skip(1) {
            assert(a =~= seq![a[0]] + a.skip(1));
            assert(b =~= seq![b[0]] + b.skip(1));
        }
    } else {
        lemma_str_lt_total(a[0], b[0]);
    }
}

/// Places `a` relative to `b` in the order `str_lt`.
pub fn rank_chars(a: &Vec<char>, b: &Vec<char>) -> (r: Rank)
    ensures
        r == Rank::Before <==> str_lt(a@, b@),
        r == Rank::Same <==> a@ == b@,
        r == Rank::After <==> str_lt(b@, a@),
{
    let mut i: usize = 0;
    proof {
        assert(a@.skip(0) =~= a@);
        assert(b@.skip(0) =~= b@);
        lemma_str_lt_irreflexive(a@);
        lemma_str_lt_total(a@, b@);
        if str_lt(a@, b@) && str_lt(b@, a@) {
            lemma_str_lt_transitive(a@, b@, a@);
        }
    }
    while i < a.len() && i < b.len()
        invariant
            i <= a.len(),
            i <= b.len(),
            a@.take(i as int) == b@.take(i as int),
            str_lt(a@, b@) == str_lt(a@.skip(i as int), b@.skip(i as int)),
            str_lt(b@, a@) == str_lt(b@.skip(i as int), a@.skip(i as int)),
            !(str_lt(a@, b@) && str_lt(b@, a@)),
            !str_lt(a@, a@),
        decreases a.len() - i,
    {
        let x = a[i];
        let y = b[i];
        if x != y {
            assert(a@.skip(i as int)[0] == x);
            assert(b@.skip(i as int)[0] == y);
            assert(a@ != b@);
            if x < y {
                return Rank::Before;
            } else {
                return Rank::After;
            }
        }
        proof {
            assert(a@.skip(i as int)[0] == x);
            assert(b@.skip(i as int)[0] == y);
            assert(a@.skip(i as int).skip(1) =~= a@.skip(i + 1));
            assert(b@.skip(i as int).skip(1) =~= b@.skip(i + 1));
            assert(a@.take(i + 1) =~= a@.take(i as int).push(x));
            assert(b@.take(i + 1) =~= b@.take(i as int).push(y));
        }
        i += 1;
    }
    if i < b.len() {
        assert(a@.skip(i as int).len() == 0);
        assert(a@.len() != b@.len());
        Rank::Before
    } else if i < a.len() {
        assert(b@.skip(i as int).len() == 0);
        assert(a@.len() != b@.len());
        Rank::After
    } else {
        assert(a@ =~= a@.take(i as int));
        assert(b@ =~= b@.take(i as int));
        Rank::Same
    }
}

/// Places the string `a` relative to `b` in the order `str_lt`.
pub fn rank_str(a: &str, b: &str) -> (r: Rank)
    ensures
        r == Rank::Before <==> str_lt(a@, b@),
        r == Rank::Same <==> a@ == b@,
        r == Rank::After <==> str_lt(b@, a@),
{
    let x = to_chars(a);
    let y = to_chars(b);
    rank_chars(&x, &y)
}

/// Whether `a` and `b` have the same characters.
pub fn str_eq(a: &str, b: &str) -> (r: bool)
    ensures
        r == (a@ == b@),
{
    match rank_str(a, b) {
        Rank::Same => true,
        _ => false,
    }
}

/// Places the names `a` relative to the names `b` in the order `frags_lt`.
pub fn rank_strings(a: &Vec<String>, b: &Vec<String>) -> (r: Rank)
    ensures
        r == Rank::Before <==> frags_lt(strings_view(a@), strings_view(b@)),
        r == Rank::Same <==> strings_view(a@) == strings_view(b@),
        r == Rank::After <==> frags_lt(strings_view(b@), strings_view(a@)),
{
    let ghost av = strings_view(a@);
    let ghost bv = strings_view(b@);
    let mut i: usize = 0;
    proof {
        assert(av.skip(0) =~= av);
        assert(bv.skip(0) =~= bv);
        lemma_frags_lt_irreflexive(av);
        lemma_frags_lt_total(av, bv);
        if frags_lt(av, bv) && frags_lt(bv, av) {
            lemma_frags_lt_transitive(av, bv, av);
        }
    }
    while i < a.len() && i < b.len()
        invariant
            i <= a.len(),
            i <= b.len(),
            av == strings_view(a@),
            bv == strings_view(b@),
            av.take(i as int) == bv.take(i as int),
            frags_lt(av, bv) == frags_lt(av.skip(i as int), bv.skip(i as int)),
            frags_lt(bv, av) == frags_lt(bv.skip(i as int), av.skip(i as int)),
            !(frags_lt(av, bv) && frags_lt(bv, av)),
        decreases a.len() - i,
    {
        let r = rank_str(a[i].as_str(), b[i].as_str());
        proof {
            assert(av.skip(i as int)[0] == a[i as int]@);
            assert(bv.skip(i as int)[0] == b[i as int]@);
            assert(av[i as int] == a[i as int]@);
            assert(bv[i as int] == b[i as int]@);
        }
        match r {
            Rank::Before => {
                proof {
                    lemma_str_lt_irreflexive(a[i as int]@);
                }
                return Rank::Before;
            },
            Rank::After => {
                proof {
                    lemma_str_lt_irreflexive(a[i as int]@);
                }
                return Rank::After;
            },
            Rank::Same => {},
        }
        proof {
            assert(av.skip(i as int).skip(1) =~= av.skip(i + 1));
            assert(bv.skip(i as int).skip(1) =~= bv.skip(i + 1));
            assert(av.take(i + 1) =~= av.take(i as int).push(av[i as int]));
            assert(bv.take(i + 1) =~= bv.take(i as int).push(bv[i as int]));
        }
        i += 1;
    }
    if i < b.len() {
        assert(av.skip(i as int).len() == 0);
        assert(av.len() != bv.len());
        Rank::Before
    } else if i < a.len() {
        assert(bv.skip(i as int).len() == 0);
        assert(av.len() != bv.len());
        Rank::After
    } else {
        assert(av =~= av.take(i as int));
        assert(bv =~= bv.take(i as int));
        Rank::Same
    }
}

/// The decimal digit for `d`, which is below ten.
pub open spec fn digit(d: nat) -> char {
    if d == 0 {
        '0'
    } else if d == 1 {
        '1'
    } else if d == 2 {
        '2'
    } else if d == 3 {
        '3'
    } else if d == 4 {
        '4'
    } else if d == 5 {
        '5'
    } else if d == 6 {
        '6'
    } else if d == 7 {
        '7'
    } else if d == 8 {
        '8'
    } else {
        '9'
    }
}

/// The decimal numeral of `n`, without leading zeros.
pub open spec fn decimal(n: nat) -> Seq<char>
    decreases n,
{
    if n < 10 {
        seq![digit(n)]
    } else {
        decimal(n / 10).push(digit(n % 10))
    }
}

fn digit_char(d: usize) -> (c: char)
    requires
        d < 10,
    ensures
        c == digit(d as nat),
{
    if d == 0 {
        '0'
    } else if d == 1 {
        '1'
    } else if d == 2 {
        '2'
    } else if d == 3 {
        '3'
    } else if d == 4 {
        '4'
    } else if d == 5 {
        '5'
    } else if d == 6 {
        '6'
    } else if d == 7 {
        '7'
    } else if d == 8 {
        '8'
    } else {
        '9'
    }
}

/// The decimal numeral of `n` as a string.
pub fn decimal_string(n: usize) -> (r: String)
    ensures
        r@ == decimal(n as nat),
    decreases n,
{
    if n < 10 {
        let mut out = String::new();
        out.push(digit_char(n));
        assert(out@ =~= seq![digit(n as nat)]);
        out
    } else {
        let mut out = decimal_string(n / 10);
        out.push(digit_char(n % 10));
        out
    }
}

} // verus!

