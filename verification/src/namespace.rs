//! Namespaces and fully qualified names.
//!
//! A [`Namespace`] is an ordered sequence of path fragments such as
//! `std::math`; a [`NamespaceItem`] is a namespace together with the name of
//! one binding inside it, and is the key under which a binding is stored.

use crate::text::{
    copy_strings, frags_lt, join, join_strings, lemma_frags_lt_irreflexive,
    lemma_frags_lt_total, lemma_frags_lt_transitive,
    lemma_str_lt_irreflexive, lemma_str_lt_total, lemma_str_lt_transitive, rank_str,
    rank_strings, sep, split, split_path, str_lt, strings_view, Rank,
};
use vstd::prelude::*;

verus! {

/// An ordered sequence of path fragments.
#[derive(Debug, Clone, PartialEq, Eq, Hash, PartialOrd, Ord)]
pub struct Namespace {
    frags: Vec<String>,
}

/// A binding key: the namespace that holds the binding and the binding's
/// own name.
#[derive(Debug, Clone, PartialEq, Eq, Hash, PartialOrd, Ord)]
pub struct NamespaceItem {
    frags: Namespace,
    target: String,
}

/// The mathematical value of a [`NamespaceItem`].
pub struct Path {
    pub frags: Seq<Seq<char>>,
    pub target: Seq<char>,
}

impl Path {
    /// The key that a `::`-separated text names: its last fragment is the
    /// target and the fragments before it are the namespace.
    pub open spec fn parse(s: Seq<char>) -> Path {
        let parts = split_path(s);
        Path { frags: parts.drop_last(), target: parts.last() }
    }

    /// The key for `target` inside the namespace `frags`.
    pub open spec fn inside(frags: Seq<Seq<char>>, target: Seq<char>) -> Path {
        Path { frags, target }
    }

    /// The printed form: the fragments and the target, each followed by
    /// `::` but the last.
    pub open spec fn text(self) -> Seq<char> {
        join(self.frags, sep()) + sep() + self.target
    }

    /// The total order on keys: by namespace, then by target.
    pub open spec fn lt(self, other: Path) -> bool {
        if self.frags != other.frags {
            frags_lt(self.frags, other.frags)
        } else {
            str_lt(self.target, other.target)
        }
    }
}

/// No key comes before itself.
pub proof fn lemma_path_lt_irreflexive(a: Path)
    ensures
        !a.lt(a),
{
    lemma_str_lt_irreflexive(a.target);
}

/// The order on keys is transitive.
pub proof fn lemma_path_lt_transitive(a: Path, b: Path, c: Path)
    requires
        a.lt(b),
        b.lt(c),
    ensures
        a.lt(c),
{
    if a.frags != b.frags && b.frags != c.frags {
        lemma_frags_lt_transitive(a.frags, b.frags, c.frags);
        lemma_frags_lt_irreflexive(a.frags);
    } else if a.frags == b.frags && b.frags == c.frags {
        lemma_str_lt_transitive(a.target, b.target, c.target);
    }
}

/// Any two keys are equal or ordered one way or the other.
pub proof fn lemma_path_lt_total(a: Path, b: Path)
    ensures
        a.lt(b) || a == b || b.lt(a),
{
    lemma_frags_lt_total(a.frags, b.frags);
    lemma_str_lt_total(a.target, b.target);
}

impl View for Namespace {
    type V = Seq<Seq<char>>;

    open spec fn view(&self) -> Seq<Seq<char>> {
        self.fragments()
    }
}

impl Namespace {
    /// The fragments as character sequences.
    pub closed spec fn fragments(&self) -> Seq<Seq<char>> {
        strings_view(self.frags@)
    }

    /// The namespace with the given fragments.
    pub fn new(frags: Vec<String>) -> (r: Self)
        ensures
            r@ == strings_view(frags@),
    {
        Namespace { frags }
    }

    /// Appends one fragment.
    pub fn push(&mut self, t: &str)
        ensures
            final(self)@ == old(self)@.push(t@),
    {
        let s = t.to_owned();
        self.frags.push(s);
        assert(strings_view(self.frags@) =~= strings_view(old(self).frags@).push(t@));
    }

    /// The key for `item` inside this namespace.
    pub fn join(&self, item: &str) -> (r: NamespaceItem)
        ensures
            r@ == Path::inside(self@, item@),
    {
        NamespaceItem { frags: self.copy(), target: item.to_owned() }
    }

    /// The namespace that `value` names: its fragments are the parts of
    /// `value` between the occurrences of `::`.
    pub fn from_str(value: &str) -> (r: Self)
        ensures
            r@ == split_path(value@),
    {
        Namespace { frags: split(value) }
    }

    /// As [`Namespace::from_str`], for an owned string.
    pub fn from_string(value: String) -> (r: Self)
        ensures
            r@ == split_path(value@),
    {
        Namespace { frags: split(value.as_str()) }
    }

    /// The fragments joined with `join` between them.
    pub fn as_str(&self, join: &str) -> (r: String)
        ensures
            r@ == crate::text::join(self@, join@),
    {
        join_strings(&self.frags, join)
    }

    /// The printed form: the fragments joined with `::`.
    pub fn to_string(&self) -> (r: String)
        ensures
            r@ == join(self@, sep()),
    {
        proof {
            reveal_strlit("::");
            assert("::"@ =~= sep());
        }
        join_strings(&self.frags, "::")
    }

    /// The number of fragments.
    pub fn len(&self) -> (r: usize)
        ensures
            r == self@.len(),
    {
        self.frags.len()
    }

    /// A copy with the same fragments.
    pub fn copy(&self) -> (r: Self)
        ensures
            r@ == self@,
    {
        Namespace { frags: copy_strings(&self.frags) }
    }

    /// Whether both namespaces have the same fragments.
    pub fn same(&self, other: &Namespace) -> (r: bool)
        ensures
            r == (self@ == other@),
    {
        match rank_strings(&self.frags, &other.frags) {
            Rank::Same => true,
            _ => false,
        }
    }
}

impl View for NamespaceItem {
    type V = Path;

    open spec fn view(&self) -> Path {
        self.path()
    }
}

impl NamespaceItem {
    /// The key as a mathematical value.
    pub closed spec fn path(&self) -> Path {
        Path { frags: self.frags@, target: self.target@ }
    }

    /// The key that `value` names: the text after the last `::` is the
    /// target, the fragments before it are the namespace. A text without
    /// `::` names a target in the empty namespace.
    pub fn from_str(value: &str) -> (r: Self)
        ensures
            r@ == Path::parse(value@),
    {
        let mut parts = split(value);
        let ghost all = strings_view(parts@);
        let target = parts.pop().unwrap();
        assert(strings_view(parts@) =~= all.drop_last());
        NamespaceItem { frags: Namespace { frags: parts }, target }
    }

    /// As [`NamespaceItem::from_str`], for an owned string.
    pub fn from_string(value: String) -> (r: Self)
        ensures
            r@ == Path::parse(value@),
    {
        Self::from_str(value.as_str())
    }

    /// The key for `target` inside the namespace `frags`.
    pub fn in_namespace(frags: Namespace, target: &str) -> (r: Self)
        ensures
            r@ == Path::inside(frags@, target@),
    {
        NamespaceItem { frags, target: target.to_owned() }
    }

    /// The binding's own name.
    pub fn target(&self) -> (r: &str)
        ensures
            r@ == self@.target,
    {
        self.target.as_str()
    }

    /// The namespace that holds the binding.
    pub fn frags(&self) -> (r: Namespace)
        ensures
            r@ == self@.frags,
    {
        self.frags.copy()
    }

    /// The printed form: namespace, `::`, target.
    pub fn to_string(&self) -> (r: String)
        ensures
            r@ == self@.text(),
    {
        proof {
            reveal_strlit("::");
            assert("::"@ =~= sep());
        }
        let mut out = self.frags.to_string();
        out.append("::");
        out.append(self.target.as_str());
        out
    }

    /// Whether the printed form of this key is `other`.
    pub fn is_text(&self, other: &str) -> (r: bool)
        ensures
            r == (self@.text() == other@),
    {
        let own = self.to_string();
        match rank_str(own.as_str(), other) {
            Rank::Same => true,
            _ => false,
        }
    }

    /// A copy with the same namespace and target.
    pub fn copy(&self) -> (r: Self)
        ensures
            r@ == self@,
    {
        NamespaceItem { frags: self.frags.copy(), target: self.target.clone() }
    }

    /// Places this key relative to `other` in the order of keys.
    pub fn rank(&self, other: &NamespaceItem) -> (r: Rank)
        ensures
            r == Rank::Before <==> self@.lt(other@),
            r == Rank::Same <==> self@ == other@,
            r == Rank::After <==> other@.lt(self@),
    {
        proof {
            lemma_path_lt_irreflexive(self@);
            lemma_path_lt_total(self@, other@);
            if self@.lt(other@) && other@.lt(self@) {
                lemma_path_lt_transitive(self@, other@, self@);
            }
        }
        match rank_strings(&self.frags.frags, &other.frags.frags) {
            Rank::Before => Rank::Before,
            Rank::After => Rank::After,
            Rank::Same => rank_str(self.target.as_str(), other.target.as_str()),
        }
    }

    /// Whether both keys have the same namespace and target.
    pub fn same(&self, other: &NamespaceItem) -> (r: bool)
        ensures
            r == (self@ == other@),
    {
        match self.rank(other) {
            Rank::Same => true,
            _ => false,
        }
    }
}

} // verus!
