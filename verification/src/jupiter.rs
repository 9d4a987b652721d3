//! A tree of namespaces.
//!
//! A *fragment* is one component of a namespace path, such as `here` in
//! `foo::here::bar`. Each node of the tree is a fragment; a fragment that
//! holds a value is a *value fragment*. The children of a node are kept in
//! the order of their names.

use crate::text::{
    join, join_strings, lemma_str_lt_irreflexive, lemma_str_lt_total, lemma_str_lt_transitive,
    rank_str, str_lt, strings_view, Rank,
};
use std::marker::PhantomData;
use vstd::prelude::*;

verus! {

/// How the path of a fragment is written.
#[derive(Debug, Clone, Copy, PartialEq, Eq, Structural)]
pub enum PathRules {
    /// The separator stands before the first fragment too.
    SepPreceedsRoot,
    /// The separator stands between fragments only.
    Default,
}

impl Default for PathRules {
    fn default() -> (r: Self)
        ensures
            r == PathRules::Default,
    {
        PathRules::Default
    }
}

/// Marks a path that starts at the root of a tree.
pub struct FragIsRoot;

/// Marks a path that starts at a branch of a tree.
pub struct FragIsRelative;

/// The fragments on the way to a node, and the separator to write between
/// them.
pub struct NamespaceFrags<M> {
    frags: Vec<String>,
    split: String,
    _boo: PhantomData<M>,
}

/// A fragment in the namespace.
pub struct NamespaceNode<T> {
    name: Option<String>,
    value: Option<T>,
    split: String,
    children: Vec<NamespaceNode<T>>,
}

/// A global namespace holder.
pub struct Namespace<T> {
    root: NamespaceNode<T>,
    split: String,
}

/// A value fragment: its name and its value.
pub struct NodeValue<'a, T> {
    name: &'a String,
    value: &'a T,
}

/// The mathematical value of a [`NamespaceNode`]: the root has no name.
pub struct Tree<T> {
    pub name: Option<Seq<char>>,
    pub value: Option<T>,
    pub split: Seq<char>,
    pub children: Seq<Tree<T>>,
}

/// The number of leading trees of `c` whose name comes before `name`.
pub open spec fn child_position<T>(c: Seq<Tree<T>>, name: Seq<char>) -> nat
    decreases c.len(),
{
    if c.len() == 0 || !(c[0].name is Some && str_lt(c[0].name->0, name)) {
        0
    } else {
        1 + child_position(c.skip(1), name)
    }
}

/// Every tree of `c` has a name, and the names are in strictly ascending
/// order.
pub open spec fn sorted_children<T>(c: Seq<Tree<T>>) -> bool {
    &&& forall|i: int| 0 <= i < c.len() ==> (#[trigger] c[i]).name is Some
    &&& forall|i: int, j: int|
        0 <= i < j < c.len() ==> str_lt((#[trigger] c[i]).name->0, (#[trigger] c[j]).name->0)
}

/// The value fragments of the trees of `c`, tree by tree.
pub open spec fn items_in<T>(c: Seq<Tree<T>>) -> Seq<(Seq<char>, T)>
    decreases c,
{
    if c.len() == 0 {
        Seq::empty()
    } else {
        items_in(c.drop_last()) + c.last().items()
    }
}

/// The fragments named `item` of the trees of `c`, tree by tree.
pub open spec fn named_in<T>(c: Seq<Tree<T>>, item: Seq<char>) -> Seq<Tree<T>>
    decreases c,
{
    if c.len() == 0 {
        Seq::empty()
    } else {
        named_in(c.drop_last(), item) + c.last().named(item)
    }
}

impl<T> Tree<T> {
    /// The root of an empty tree.
    pub open spec fn root(split: Seq<char>) -> Tree<T> {
        Tree { name: None, value: None, split, children: Seq::empty() }
    }

    /// A fragment named `name` without value and children.
    pub open spec fn leaf(name: Seq<char>, split: Seq<char>) -> Tree<T> {
        Tree { name: Some(name), value: None, split, children: Seq::empty() }
    }

    /// The child named `name`.
    pub open spec fn child(self, name: Seq<char>) -> Option<Tree<T>> {
        let p = child_position(self.children, name) as int;
        if p < self.children.len() && self.children[p].name == Some(name) {
            Some(self.children[p])
        } else {
            None
        }
    }

    /// This tree with `child`, which has the name `name`, in place of the
    /// child of that name, or as a new child.
    pub open spec fn with_child(self, name: Seq<char>, child: Tree<T>) -> Tree<T> {
        let p = child_position(self.children, name) as int;
        if p < self.children.len() && self.children[p].name == Some(name) {
            Tree { children: self.children.update(p, child), ..self }
        } else {
            Tree { children: self.children.insert(p, child), ..self }
        }
    }

    /// The fragment reached by following `path` from this one.
    pub open spec fn descend(self, path: Seq<Seq<char>>) -> Option<Tree<T>>
        decreases path.len(),
    {
        if path.len() == 0 {
            Some(self)
        } else {
            match self.child(path[0]) {
                Some(c) => c.descend(path.skip(1)),
                None => None,
            }
        }
    }

    /// The value of the fragment at `path`; the root counts as having none.
    pub open spec fn get(self, path: Seq<Seq<char>>) -> Option<T> {
        match self.descend(path) {
            Some(n) => if n.name is Some {
                n.value
            } else {
                None
            },
            None => None,
        }
    }

    /// The child named `name`, or a new leaf of that name.
    pub open spec fn child_or_leaf(self, name: Seq<char>) -> Tree<T> {
        match self.child(name) {
            Some(c) => c,
            None => Tree::leaf(name, self.split),
        }
    }

    /// This tree with a fragment at `path`, made of new leaves as far as it
    /// was not there.
    pub open spec fn with_module(self, path: Seq<Seq<char>>) -> Tree<T>
        decreases path.len(),
    {
        if path.len() == 0 {
            self
        } else {
            self.with_child(path[0], self.child_or_leaf(path[0]).with_module(path.skip(1)))
        }
    }

    /// This tree with the fragment at `path` turned into a value fragment
    /// that holds `value` and has no children.
    pub open spec fn emplace(self, path: Seq<Seq<char>>, value: T) -> Tree<T>
        decreases path.len(),
    {
        if path.len() == 0 {
            Tree { value: Some(value), children: Seq::empty(), ..self }
        } else {
            self.with_child(path[0], self.child_or_leaf(path[0]).emplace(path.skip(1), value))
        }
    }

    /// The value fragments of this tree, as names and values: this fragment
    /// first, then those of its children in the order of their names.
    pub open spec fn items(self) -> Seq<(Seq<char>, T)>
        decreases self,
    {
        (if self.value is Some && self.name is Some {
            seq![(self.name->0, self.value->0)]
        } else {
            Seq::empty()
        }) + items_in(self.children)
    }

    /// The fragments of this tree named `item`: this fragment first, then
    /// those of its children in the order of their names.
    pub open spec fn named(self, item: Seq<char>) -> Seq<Tree<T>>
        decreases self,
    {
        (if self.name == Some(item) {
            seq![self]
        } else {
            Seq::empty()
        }) + named_in(self.children, item)
    }

    /// Every fragment below this one has a name, and the children of every
    /// fragment are in the strict order of their names.
    pub open spec fn wf(self) -> bool
        decreases self,
    {
        &&& sorted_children(self.children)
        &&& forall|i: int| 0 <= i < self.children.len() ==> (#[trigger] self.children[i]).wf()
    }
}

/// In sorted children, the names before position `child_position(c, name)`
/// come before `name`, and the names from there on do not.
pub proof fn lemma_child_position<T>(c: Seq<Tree<T>>, name: Seq<char>)
    requires
        sorted_children(c),
    ensures
        0 <= child_position(c, name) <= c.len(),
        forall|i: int| 0 <= i < child_position(c, name) ==> str_lt((#[trigger] c[i]).name->0, name),
        forall|i: int|
            child_position(c, name) <= i < c.len() ==> !str_lt((#[trigger] c[i]).name->0, name),
    decreases c.len(),
{
    if c.len() == 0 {
    } else if !str_lt(c[0].name->0, name) {
        assert(c[0].name is Some);
        assert forall|i: int| 0 <= i < c.len() implies !str_lt(
            (#[trigger] c[i]).name->0,
            name,
        ) by {
            if i > 0 && str_lt(c[i].name->0, name) {
                assert(str_lt(c[0].name->0, c[i].name->0));
                lemma_str_lt_transitive(c[0].name->0, c[i].name->0, name);
            }
        }
    } else {
        assert(c[0].name is Some);
        let rest = c.skip(1);
        assert(sorted_children(rest)) by {
            assert forall|i: int| 0 <= i < rest.len() implies (#[trigger] rest[i]).name is Some by {
                assert(rest[i] == c[i + 1]);
            }
            assert forall|i: int, j: int| 0 <= i < j < rest.len() implies str_lt(
                (#[trigger] rest[i]).name->0,
                (#[trigger] rest[j]).name->0,
            ) by {
                assert(rest[i] == c[i + 1]);
                assert(rest[j] == c[j + 1]);
            }
        }
        lemma_child_position(rest, name);
        let p = child_position(c, name) as int;
        assert forall|i: int| 0 <= i < p implies str_lt((#[trigger] c[i]).name->0, name) by {
            if i > 0 {
                assert(c[i] == rest[i - 1]);
            }
        }
        assert forall|i: int| p <= i < c.len() implies !str_lt((#[trigger] c[i]).name->0, name) by {
            assert(c[i] == rest[i - 1]);
        }
    }
}

/// Putting a child that is named `name` into a tree with sorted children
/// keeps the children sorted.
pub proof fn lemma_with_child_sorted<T>(t: Tree<T>, name: Seq<char>, child: Tree<T>)
    requires
        sorted_children(t.children),
        child.name == Some(name),
    ensures
        sorted_children(t.with_child(name, child).children),
{
    let c = t.children;
    let p = child_position(c, name) as int;
    lemma_child_position(c, name);
    let n = t.with_child(name, child).children;
    if p < c.len() && c[p].name == Some(name) {
        assert forall|i: int| 0 <= i < n.len() implies (#[trigger] n[i]).name is Some by {
            if i != p {
                assert(n[i] == c[i]);
            }
        }
        assert forall|i: int, j: int| 0 <= i < j < n.len() implies str_lt(
            (#[trigger] n[i]).name->0,
            (#[trigger] n[j]).name->0,
        ) by {
            assert(n[i].name == c[i].name);
            assert(n[j].name == c[j].name);
        }
    } else {
        assert forall|i: int| 0 <= i < n.len() implies (#[trigger] n[i]).name is Some by {
            if i < p {
                assert(n[i] == c[i]);
            } else if i > p {
                assert(n[i] == c[i - 1]);
            }
        }
        assert forall|i: int, j: int| 0 <= i < j < n.len() implies str_lt(
            (#[trigger] n[i]).name->0,
            (#[trigger] n[j]).name->0,
        ) by {
            if j < p {
                assert(n[i] == c[i] && n[j] == c[j]);
            } else if j == p {
                assert(n[i] == c[i]);
            } else if i == p {
                assert(n[j] == c[j - 1]);
                assert(c[p].name is Some);
                lemma_str_lt_total(c[p].name->0, name);
                if j - 1 > p {
                    assert(str_lt(c[p].name->0, c[j - 1].name->0));
                    lemma_str_lt_transitive(name, c[p].name->0, c[j - 1].name->0);
                }
            } else if i < p {
                assert(n[i] == c[i] && n[j] == c[j - 1]);
            } else {
                assert(n[i] == c[i - 1] && n[j] == c[j - 1]);
            }
        }
    }
}

/// After putting in a child named `name`, that child is the child of that
/// name, and the child of every other name is as it was.
pub proof fn lemma_with_child_child<T>(
    t: Tree<T>,
    name: Seq<char>,
    child: Tree<T>,
    other: Seq<char>,
)
    requires
        sorted_children(t.children),
        child.name == Some(name),
    ensures
        t.with_child(name, child).child(other) == if other == name {
            Some(child)
        } else {
            t.child(other)
        },
{
    let c = t.children;
    let p = child_position(c, name) as int;
    lemma_child_position(c, name);
    lemma_with_child_sorted(t, name, child);
    let u = t.with_child(name, child);
    let n = u.children;
    lemma_child_position(n, other);
    lemma_child_position(c, other);
    let q = child_position(c, other) as int;
    let r = child_position(n, other) as int;
    let replaced = p < c.len() && c[p].name == Some(name);
    lemma_str_lt_irreflexive(other);
    lemma_str_lt_irreflexive(name);
    assert(n[p] == child);
    if other == name {
        if r < p {
            assert(str_lt(n[r].name->0, n[p].name->0));
        } else if r > p {
            assert(str_lt(n[p].name->0, other));
        }
    } else {
        // the index at which `other` stands, or would stand, in both sequences
        lemma_str_lt_total(name, other);
        if str_lt(other, name) {
            // other sorts before name: nothing before p changes
            if q > p {
                assert(str_lt(c[p].name->0, other));
                if replaced {
                    lemma_str_lt_transitive(c[p].name->0, other, name);
                } else {
                    lemma_str_lt_total(c[p].name->0, name);
                    lemma_str_lt_transitive(name, c[p].name->0, other);
                    lemma_str_lt_transitive(name, other, name);
                }
            }
            if q == p && p < c.len() && replaced {
            }
            assert(q <= p);
            if r > q {
                assert(str_lt(n[q].name->0, other));
                if q < p {
                    assert(n[q] == c[q]);
                } else {
                    lemma_str_lt_transitive(name, other, name);
                }
            }
            if r < q {
                assert(n[r] == c[r]);
            }
            assert(r == q);
            if q < p {
                assert(n[q] == c[q]);
            }
            if q == p {
                if q < c.len() && c[q].name == Some(other) {
                    assert(!str_lt(c[p].name->0, name));
                    lemma_str_lt_total(c[p].name->0, name);
                }
            }
        } else {
            // name sorts before other
            assert(str_lt(name, other));
            if q < p {
                assert(str_lt(c[q].name->0, name));
                lemma_str_lt_transitive(c[q].name->0, name, other);
            }
            assert(q >= p);
            if replaced {
                if r < q {
                    if r != p {
                        assert(n[r] == c[r]);
                    }
                }
                if r > q {
                    if q != p {
                        assert(n[q] == c[q]);
                    } else {
                        assert(c[p].name == Some(name));
                    }
                }
                assert(r == q);
                if q != p {
                    if q < c.len() {
                        assert(n[q] == c[q]);
                    }
                } else {
                    assert(c[q].name != Some(other));
                }
            } else {
                if r < q + 1 {
                    if r < p {
                        assert(n[r] == c[r]);
                        assert(str_lt(c[r].name->0, name));
                        lemma_str_lt_transitive(c[r].name->0, name, other);
                    } else if r > p {
                        assert(n[r] == c[r - 1]);
                    }
                }
                if r > q + 1 {
                    assert(n[q + 1] == c[q]);
                }
                assert(r == q + 1);
                if q < c.len() {
                    assert(n[q + 1] == c[q]);
                }
            }
        }
    }
}

/// Every fragment that is found under a name has that name.
pub proof fn lemma_named_have_the_name<T>(t: Tree<T>, item: Seq<char>)
    ensures
        forall|i: int|
            0 <= i < t.named(item).len() ==> (#[trigger] t.named(item)[i]).name == Some(item),
    decreases t, 1int,
{
    lemma_named_in_have_the_name(t.children, item);
    let own = if t.name == Some(item) {
        seq![t]
    } else {
        Seq::<Tree<T>>::empty()
    };
    let below = named_in(t.children, item);
    assert forall|i: int| 0 <= i < t.named(item).len() implies (#[trigger] t.named(item)[i]).name
        == Some(item) by {
        if i < own.len() {
            assert(t.named(item)[i] == own[i]);
        } else {
            assert(t.named(item)[i] == below[i - own.len()]);
        }
    }
}

/// Every fragment that is found under a name among trees has that name.
pub proof fn lemma_named_in_have_the_name<T>(c: Seq<Tree<T>>, item: Seq<char>)
    ensures
        forall|i: int|
            0 <= i < named_in(c, item).len() ==> (#[trigger] named_in(c, item)[i]).name == Some(
                item,
            ),
    decreases c, 0int,
{
    if c.len() > 0 {
        lemma_named_in_have_the_name(c.drop_last(), item);
        lemma_named_have_the_name(c.last(), item);
        let before = named_in(c.drop_last(), item);
        let last = c.last().named(item);
        assert forall|i: int| 0 <= i < named_in(c, item).len() implies (#[trigger] named_in(
            c,
            item,
        )[i]).name == Some(item) by {
            if i < before.len() {
                assert(named_in(c, item)[i] == before[i]);
            } else {
                assert(named_in(c, item)[i] == last[i - before.len()]);
            }
        }
    }
}

/// A child of a well-formed tree, or a new leaf, is well formed and has the
/// name that was asked for.
pub proof fn lemma_child_or_leaf<T>(t: Tree<T>, name: Seq<char>)
    requires
        t.wf(),
    ensures
        t.child_or_leaf(name).wf(),
        t.child_or_leaf(name).name == Some(name),
{
    let p = child_position(t.children, name) as int;
    if p < t.children.len() && t.children[p].name == Some(name) {
        assert(t.children[p].wf());
    }
}

/// A value that was put at a path is found at that path.
pub proof fn lemma_emplace_get<T>(t: Tree<T>, path: Seq<Seq<char>>, value: T)
    requires
        t.wf(),
        path.len() > 0,
    ensures
        t.emplace(path, value).get(path) == Some(value),
    decreases path.len(),
{
    let name = path[0];
    let rest = path.skip(1);
    let child = t.child_or_leaf(name);
    lemma_child_or_leaf(t, name);
    let placed = child.emplace(rest, value);
    assert(placed.name == Some(name)) by {
        lemma_emplace_keeps_name(child, rest, value);
    }
    lemma_with_child_child(t, name, placed, name);
    if rest.len() > 0 {
        lemma_emplace_get(child, rest, value);
    }
}

/// Making a fragment below a fragment leaves the fragment's name as it is.
pub proof fn lemma_with_module_keeps_name<T>(t: Tree<T>, path: Seq<Seq<char>>)
    ensures
        t.with_module(path).name == t.name,
{
}

/// Putting a value at or below a fragment leaves the fragment's name as it
/// is.
pub proof fn lemma_emplace_keeps_name<T>(t: Tree<T>, path: Seq<Seq<char>>, value: T)
    ensures
        t.emplace(path, value).name == t.name,
{
}

impl<M> NamespaceFrags<M> {
    /// The fragments as character sequences.
    pub closed spec fn fragments(&self) -> Seq<Seq<char>> {
        strings_view(self.frags@)
    }

    /// The separator.
    pub closed spec fn separator(&self) -> Seq<char> {
        self.split@
    }

    /// The path made of `frags`, to be written with `split` between them.
    pub fn from_vec_split(frags: Vec<String>, split: &str) -> (r: Self)
        ensures
            r.fragments() == strings_view(frags@),
            r.separator() == split@,
    {
        NamespaceFrags { frags, split: split.to_owned(), _boo: PhantomData }
    }

    /// The fragments.
    pub fn frags(&self) -> (r: &Vec<String>)
        ensures
            strings_view(r@) == self.fragments(),
    {
        &self.frags
    }

    /// The fragments with the separator between them.
    fn string_doer(&self) -> (r: String)
        ensures
            r@ == join(self.fragments(), self.separator()),
    {
        join_strings(&self.frags, self.split.as_str())
    }
}

impl NamespaceFrags<FragIsRoot> {
    /// The path from the root: the fragments with the separator between
    /// them, and before the first if `opts` says so.
    pub fn as_absolute_path(&self, opts: PathRules) -> (r: String)
        ensures
            r@ == if opts == PathRules::SepPreceedsRoot {
                self.separator() + join(self.fragments(), self.separator())
            } else {
                join(self.fragments(), self.separator())
            },
    {
        let joined = self.string_doer();
        match opts {
            PathRules::SepPreceedsRoot => self.split.clone().concat(joined.as_str()),
            PathRules::Default => joined,
        }
    }
}

impl NamespaceFrags<FragIsRelative> {
    /// The path from a branch: the fragments with the separator between
    /// them.
    pub fn as_relative_path(&self) -> (r: String)
        ensures
            r@ == join(self.fragments(), self.separator()),
    {
        self.string_doer()
    }
}

impl<'a, T> NodeValue<'a, T> {
    /// The name and the value as a mathematical pair.
    pub closed spec fn pair(&self) -> (Seq<char>, T) {
        (self.name@, *self.value)
    }

    /// The name of the value fragment.
    pub fn name(&self) -> (r: &String)
        ensures
            r@ == self.pair().0,
    {
        self.name
    }

    /// The value of the value fragment.
    pub fn value(&self) -> (r: &T)
        ensures
            *r == self.pair().1,
    {
        self.value
    }
}

/// The names and values of a sequence of value fragments.
pub open spec fn pairs<'a, T>(s: Seq<NodeValue<'a, T>>) -> Seq<(Seq<char>, T)> {
    Seq::new(s.len(), |i: int| s[i].pair())
}

/// The trees of a sequence of nodes.
pub open spec fn trees<'a, T>(s: Seq<&'a NamespaceNode<T>>) -> Seq<Tree<T>> {
    Seq::new(s.len(), |i: int| s[i].tree())
}

/// The name of a node as a mathematical value.
pub open spec fn name_view(name: Option<String>) -> Option<Seq<char>> {
    match name {
        Some(n) => Some(n@),
        None => None,
    }
}

/// The trees of a sequence of child nodes.
pub open spec fn subtrees<T>(s: Seq<NamespaceNode<T>>) -> Seq<Tree<T>>
    decreases s,
{
    Seq::new(
        s.len(),
        |i: int|
            if 0 <= i < s.len() {
                s[i].tree()
            } else {
                Tree { name: None, value: None, split: Seq::empty(), children: Seq::empty() }
            },
    )
}

impl<T> View for NamespaceNode<T> {
    type V = Tree<T>;

    open spec fn view(&self) -> Tree<T> {
        self.tree()
    }
}

impl<T> NamespaceNode<T> {
    /// The node as a mathematical value.
    pub closed spec fn tree(&self) -> Tree<T>
        decreases self,
    {
        Tree {
            name: name_view(self.name),
            value: self.value,
            split: self.split@,
            children: subtrees(self.children@),
        }
    }

    /// The tree is well formed: at every fragment the children have names
    /// and stand in the strict order of those.
    #[verifier::type_invariant]
    pub closed spec fn ordered(&self) -> bool {
        self.tree().wf()
    }

    /// What the type maintains, said of the node's tree.
    pub proof fn lemma_wf(&self)
        requires
            self.ordered(),
        ensures
            self@.wf(),
    {
    }

    /// The root of an empty tree.
    fn root(split: &str) -> (r: Self)
        ensures
            r@ == Tree::<T>::root(split@),
    {
        let r = NamespaceNode {
            name: None,
            value: None,
            split: split.to_owned(),
            children: Vec::new(),
        };
        assert(subtrees(r.children@) =~= Seq::empty());
        r
    }

    /// A fragment named `name` without value and children.
    fn leaf(name: &str, split: &str) -> (r: Self)
        ensures
            r@ == Tree::<T>::leaf(name@, split@),
    {
        let r = NamespaceNode {
            name: Some(name.to_owned()),
            value: None,
            split: split.to_owned(),
            children: Vec::new(),
        };
        assert(subtrees(r.children@) =~= Seq::empty());
        r
    }

    /// The name of the fragment; the root has none.
    pub fn name(&self) -> (r: Option<&String>)
        ensures
            match r {
                Some(n) => self@.name == Some(n@),
                None => self@.name is None,
            },
    {
        match &self.name {
            Some(n) => Some(n),
            None => None,
        }
    }

    /// The value of the fragment.
    pub fn extract_value(&self) -> (r: Option<&T>)
        ensures
            match r {
                Some(v) => self@.value == Some(*v),
                None => self@.value is None,
            },
    {
        self.value.as_ref()
    }

    /// The children, in the order of their names.
    pub fn children(&self) -> (r: &Vec<NamespaceNode<T>>)
        ensures
            subtrees(r@) == self@.children,
            self@.wf(),
    {
        proof {
            use_type_invariant(self);
        }
        &self.children
    }

    /// The separator that paths under this node are written with.
    pub fn separator(&self) -> (r: &str)
        ensures
            r@ == self@.split,
    {
        self.split.as_str()
    }

    /// The index at which a child named `name` stands or would stand, and
    /// whether it stands there.
    fn locate(children: &Vec<NamespaceNode<T>>, name: &str) -> (r: (usize, bool))
        requires
            sorted_children(subtrees(children@)),
        ensures
            r.0 == child_position(subtrees(children@), name@),
            r.0 <= children.len(),
            r.1 == (r.0 < children.len() && subtrees(children@)[r.0 as int].name == Some(name@)),
    {
        let ghost c = subtrees(children@);
        let mut i: usize = 0;
        assert(c.skip(0) =~= c);
        while i < children.len()
            invariant
                i <= children.len(),
                c == subtrees(children@),
                sorted_children(c),
                child_position(c, name@) == i + child_position(c.skip(i as int), name@),
            decreases children.len() - i,
        {
            assert(c.skip(i as int)[0] == c[i as int]);
            assert(c[i as int].name is Some);
            assert(c[i as int] == children[i as int]@);
            let own = match &children[i].name {
                Some(n) => n.as_str(),
                None => "",
            };
            assert(own@ == c[i as int].name->0);
            match rank_str(own, name) {
                Rank::Before => {
                    assert(c.skip(i as int).skip(1) =~= c.skip(i + 1));
                },
                Rank::Same => {
                    proof {
                        lemma_str_lt_irreflexive(name@);
                    }
                    return (i, true);
                },
                Rank::After => {
                    proof {
                        lemma_str_lt_irreflexive(name@);
                        if str_lt(own@, name@) {
                            lemma_str_lt_transitive(name@, own@, name@);
                        }
                    }
                    return (i, false);
                },
            }
            i += 1;
        }
        (i, false)
    }

    /// The child named `name`.
    fn child(&self, name: &str) -> (r: Option<&Self>)
        ensures
            match r {
                Some(c) => self@.child(name@) == Some(c@),
                None => self@.child(name@) is None,
            },
    {
        proof {
            use_type_invariant(self);
        }
        let (p, present) = Self::locate(&self.children, name);
        if present {
            assert(subtrees(self.children@)[p as int] == self.children[p as int]@);
            Some(&self.children[p])
        } else {
            None
        }
    }

    /// The fragment reached by following `path[from..]` from this one.
    fn wind_to_fragment(&self, path: &Vec<String>, from: usize) -> (r: Option<&Self>)
        requires
            from <= path.len(),
        ensures
            match r {
                Some(n) => self@.descend(strings_view(path@).skip(from as int)) == Some(n@),
                None => self@.descend(strings_view(path@).skip(from as int)) is None,
            },
        decreases path.len() - from,
    {
        let ghost rest = strings_view(path@).skip(from as int);
        if from == path.len() {
            Some(self)
        } else {
            assert(rest[0] == path[from as int]@);
            assert(rest.skip(1) =~= strings_view(path@).skip(from + 1));
            match self.child(path[from].as_str()) {
                Some(c) => c.wind_to_fragment(path, from + 1),
                None => None,
            }
        }
    }

    /// Puts `child`, which is named `name`, in place of the child of that
    /// name, or adds it.
    fn put_child(&mut self, name: &str, child: NamespaceNode<T>)
        requires
            child@.name == Some(name@),
        ensures
            final(self)@ == old(self)@.with_child(name@, child@),
    {
        proof {
            use_type_invariant(&*self);
            use_type_invariant(&child);
            lemma_with_child_sorted(self@, name@, child@);
        }
        let ghost before = self@;
        let ghost put = child@;
        let mut children: Vec<NamespaceNode<T>> = Vec::new();
        core::mem::swap(&mut self.children, &mut children);
        assert(subtrees(children@) == before.children);
        let (p, present) = Self::locate(&children, name);
        if present {
            children.set(p, child);
            assert(subtrees(children@) =~= before.children.update(p as int, put));
        } else {
            children.insert(p, child);
            assert(subtrees(children@) =~= before.children.insert(p as int, put));
        }
        proof {
            let now = subtrees(children@);
            assert forall|i: int| 0 <= i < now.len() implies (#[trigger] now[i]).wf() by {
                if present {
                    if i != p {
                        assert(now[i] == before.children[i]);
                    }
                } else if i < p {
                    assert(now[i] == before.children[i]);
                } else if i > p {
                    assert(now[i] == before.children[i - 1]);
                }
            }
        }
        self.children = children;
    }

    /// Takes the child named `name` out, leaving an empty fragment of that
    /// name in its place, or makes a new leaf of that name. Putting a child
    /// of that name back gives the same tree as putting it into the tree
    /// as it was.
    fn child_or_leaf(&mut self, name: &str) -> (r: NamespaceNode<T>)
        ensures
            r@ == old(self)@.child_or_leaf(name@),
            forall|c: Tree<T>| #[trigger]
                final(self)@.with_child(name@, c) == old(self)@.with_child(name@, c),
    {
        proof {
            use_type_invariant(&*self);
        }
        let ghost before = self@;
        let mut children: Vec<NamespaceNode<T>> = Vec::new();
        core::mem::swap(&mut self.children, &mut children);
        assert(subtrees(children@) == before.children);
        let (p, present) = Self::locate(&children, name);
        let r = if present {
            assert(before.children[p as int] == children[p as int]@);
            let placeholder = Self::leaf(name, self.split.as_str());
            let old_child = children.remove(p);
            children.insert(p, placeholder);
            assert(subtrees(children@) =~= before.children.update(
                p as int,
                Tree::<T>::leaf(name@, before.split),
            ));
            proof {
                let now = subtrees(children@);
                lemma_with_child_sorted(
                    before,
                    name@,
                    Tree::<T>::leaf(name@, before.split),
                );
                lemma_child_position(before.children, name@);
                lemma_child_position(now, name@);
                lemma_str_lt_irreflexive(name@);
                let q = child_position(now, name@) as int;
                if q < p {
                    assert(str_lt(now[q].name->0, now[p as int].name->0));
                } else if q > p {
                    assert(str_lt(now[p as int].name->0, name@));
                }
                assert(q == p);
                assert forall|c: Tree<T>| (Tree { children: now, ..before }).with_child(
                    name@,
                    c,
                ) == #[trigger] before.with_child(name@, c) by {
                    assert(now.update(p as int, c) =~= before.children.update(p as int, c));
                }
            }
            old_child
        } else {
            Self::leaf(name, self.split.as_str())
        };
        proof {
            let now = subtrees(children@);
            assert forall|i: int| 0 <= i < now.len() implies (#[trigger] now[i]).wf() by {
                if present && i == p {
                    assert(now[i] == Tree::<T>::leaf(name@, before.split));
                } else {
                    assert(now[i] == before.children[i]);
                }
            }
            if present {
                lemma_with_child_sorted(before, name@, Tree::<T>::leaf(name@, before.split));
                assert(now =~= before.with_child(
                    name@,
                    Tree::<T>::leaf(name@, before.split),
                ).children);
            }
        }
        self.children = children;
        r
    }

    /// Makes sure that there is a fragment at `path[from..]`.
    fn new_module(&mut self, path: &Vec<String>, from: usize)
        requires
            from <= path.len(),
        ensures
            final(self)@ == old(self)@.with_module(strings_view(path@).skip(from as int)),
        decreases path.len() - from,
    {
        let ghost rest = strings_view(path@).skip(from as int);
        if from < path.len() {
            assert(rest[0] == path[from as int]@);
            assert(rest.skip(1) =~= strings_view(path@).skip(from + 1));
            let name = path[from].as_str();
            let mut child = self.child_or_leaf(name);
            child.new_module(path, from + 1);
            proof {
                child.lemma_named(old(self)@.child_or_leaf(name@), rest.skip(1));
            }
            self.put_child(name, child);
        }
    }

    /// Turns the fragment at `path[from..]` into a value fragment that
    /// holds `value` and has no children.
    fn emplace(&mut self, path: &Vec<String>, from: usize, value: T)
        requires
            from <= path.len(),
        ensures
            final(self)@ == old(self)@.emplace(strings_view(path@).skip(from as int), value),
        decreases path.len() - from,
    {
        let ghost rest = strings_view(path@).skip(from as int);
        if from < path.len() {
            assert(rest[0] == path[from as int]@);
            assert(rest.skip(1) =~= strings_view(path@).skip(from + 1));
            let name = path[from].as_str();
            let mut child = self.child_or_leaf(name);
            child.emplace(path, from + 1, value);
            proof {
                child.lemma_emplaced(old(self)@.child_or_leaf(name@), rest.skip(1), value);
            }
            self.put_child(name, child);
        } else {
            proof {
                use_type_invariant(&*self);
            }
            let mut children: Vec<NamespaceNode<T>> = Vec::new();
            core::mem::swap(&mut self.children, &mut children);
            self.value = Some(value);
            assert(subtrees(self.children@) =~= Seq::empty());
        }
    }

    /// A fragment keeps its name when a module is added below it.
    proof fn lemma_named(&self, before: Tree<T>, path: Seq<Seq<char>>)
        requires
            self@ == before.with_module(path),
        ensures
            self@.name == before.name,
        decreases path.len(),
    {
    }

    /// A fragment keeps its name when a value is put at or below it.
    proof fn lemma_emplaced(&self, before: Tree<T>, path: Seq<Seq<char>>, value: T)
        requires
            self@ == before.emplace(path, value),
        ensures
            self@.name == before.name,
        decreases path.len(),
    {
    }

    /// Adds the value fragments of this tree to `out`.
    fn collect_items<'a>(&'a self, out: &mut Vec<NodeValue<'a, T>>)
        ensures
            pairs(final(out)@) == pairs(old(out)@) + self@.items(),
        decreases self,
    {
        let ghost start = pairs(out@);
        match (&self.name, &self.value) {
            (Some(name), Some(value)) => {
                out.push(NodeValue { name, value });
                assert(pairs(out@) =~= start + seq![(name@, *value)]);
            },
            _ => {
                assert(pairs(out@) =~= start + Seq::<(Seq<char>, T)>::empty());
            },
        }
        let ghost own = pairs(out@);
        let ghost kids = subtrees(self.children@);
        let mut i: usize = 0;
        assert(kids.take(0) =~= Seq::<Tree<T>>::empty());
        assert(own + items_in(kids.take(0)) =~= own);
        while i < self.children.len()
            invariant
                i <= self.children.len(),
                kids == subtrees(self.children@),
                pairs(out@) == own + items_in(kids.take(i as int)),
            decreases self.children.len() - i,
        {
            let ghost before = pairs(out@);
            self.children[i].collect_items(out);
            proof {
                assert(kids.take(i + 1).drop_last() =~= kids.take(i as int));
                assert(kids.take(i + 1).last() == self.children[i as int]@);
                assert(own + (items_in(kids.take(i as int)) + self.children[i as int]@.items())
                    =~= before + self.children[i as int]@.items());
            }
            i += 1;
        }
        assert(kids.take(self.children.len() as int) =~= kids);
        assert(start + self@.items() =~= own + items_in(kids));
    }

    /// Adds the fragments of this tree named `item` to `out`.
    fn find_inner<'a>(&'a self, item: &str, out: &mut Vec<&'a NamespaceNode<T>>)
        ensures
            trees(final(out)@) == trees(old(out)@) + self@.named(item@),
        decreases self,
    {
        let ghost start = trees(out@);
        let is_named = match &self.name {
            Some(n) => crate::text::str_eq(n.as_str(), item),
            None => false,
        };
        if is_named {
            out.push(self);
            assert(trees(out@) =~= start + seq![self@]);
        } else {
            assert(trees(out@) =~= start + Seq::<Tree<T>>::empty());
        }
        let ghost own = trees(out@);
        let ghost kids = subtrees(self.children@);
        let mut i: usize = 0;
        assert(kids.take(0) =~= Seq::<Tree<T>>::empty());
        assert(own + named_in(kids.take(0), item@) =~= own);
        while i < self.children.len()
            invariant
                i <= self.children.len(),
                kids == subtrees(self.children@),
                trees(out@) == own + named_in(kids.take(i as int), item@),
            decreases self.children.len() - i,
        {
            let ghost before = trees(out@);
            self.children[i].find_inner(item, out);
            proof {
                assert(kids.take(i + 1).drop_last() =~= kids.take(i as int));
                assert(kids.take(i + 1).last() == self.children[i as int]@);
                assert(own + (named_in(kids.take(i as int), item@) + self.children[i as int]@.named(
                    item@,
                )) =~= before + self.children[i as int]@.named(item@));
            }
            i += 1;
        }
        assert(kids.take(self.children.len() as int) =~= kids);
        assert(start + self@.named(item@) =~= own + named_in(kids, item@));
    }
}

impl<T> Namespace<T> {
    /// The tree of fragments.
    pub closed spec fn tree(&self) -> Tree<T> {
        self.root@
    }

    /// The separator.
    pub closed spec fn separator(&self) -> Seq<char> {
        self.split@
    }

    /// The root of the tree has no name.
    #[verifier::type_invariant]
    pub closed spec fn rooted(&self) -> bool {
        self.root@.name is None
    }

    /// A new, empty namespace whose paths are written with `split`.
    pub fn new(split: &str) -> (r: Self)
        ensures
            r.tree() == Tree::<T>::root(split@),
            r.separator() == split@,
    {
        Namespace { root: NamespaceNode::root(split), split: split.to_owned() }
    }

    /// The root of the tree. The root of a namespace has no name, and its
    /// tree is well formed.
    pub fn root(&self) -> (r: &NamespaceNode<T>)
        ensures
            r@ == self.tree(),
            self.tree().name is None,
            self.tree().wf(),
    {
        proof {
            use_type_invariant(self);
            use_type_invariant(&self.root);
        }
        &self.root
    }

    /// Takes the root out to work on it; an empty root stands in for it.
    fn take_root(&mut self) -> (r: NamespaceNode<T>)
        ensures
            r@ == old(self).tree(),
            r@.name is None,
            r@.wf(),
            final(self).separator() == old(self).separator(),
    {
        proof {
            use_type_invariant(&*self);
            use_type_invariant(&self.root);
        }
        let mut root = NamespaceNode::root(self.split.as_str());
        core::mem::swap(&mut self.root, &mut root);
        root
    }

    /// The separator.
    pub fn split(&self) -> (r: &str)
        ensures
            r@ == self.separator(),
    {
        self.split.as_str()
    }

    /// All value fragments: each before those below it, the children of a
    /// fragment in the order of their names.
    pub fn all_items<'a>(&'a self) -> (r: Vec<NodeValue<'a, T>>)
        ensures
            pairs(r@) == self.tree().items(),
    {
        let mut out: Vec<NodeValue<'a, T>> = Vec::new();
        assert(pairs(out@) =~= Seq::<(Seq<char>, T)>::empty());
        self.root.collect_items(&mut out);
        assert(Seq::<(Seq<char>, T)>::empty() + self.tree().items() =~= self.tree().items());
        out
    }

    /// All fragments named `item`, with or without a value: each before
    /// those below it, the children of a fragment in the order of their
    /// names.
    pub fn find<'a>(&'a self, item: &str) -> (r: Vec<&'a NamespaceNode<T>>)
        ensures
            trees(r@) == self.tree().named(item@),
            forall|i: int| 0 <= i < r.len() ==> (#[trigger] r[i])@.name == Some(item@),
    {
        proof {
            lemma_named_have_the_name(self.tree(), item@);
        }
        let mut out: Vec<&'a NamespaceNode<T>> = Vec::new();
        assert(trees(out@) =~= Seq::<Tree<T>>::empty());
        self.root.find_inner(item, &mut out);
        assert(Seq::<Tree<T>>::empty() + self.tree().named(item@) =~= self.tree().named(item@));
        assert forall|i: int| 0 <= i < out.len() implies (#[trigger] out[i])@.name == Some(
            item@,
        ) by {
            assert(trees(out@)[i] == out[i]@);
        }
        out
    }

    /// The value of the fragment at `path`.
    pub fn get_item(&self, path: &Vec<String>) -> (r: Option<&T>)
        ensures
            match r {
                Some(v) => self.tree().get(strings_view(path@)) == Some(*v),
                None => self.tree().get(strings_view(path@)) is None,
            },
            path.len() == 0 ==> r is None,
            self.tree().name is None,
            self.tree().wf(),
    {
        proof {
            use_type_invariant(self);
            use_type_invariant(&self.root);
        }
        assert(strings_view(path@).skip(0) =~= strings_view(path@));
        match self.root.wind_to_fragment(path, 0) {
            Some(node) => match node.name() {
                Some(_) => node.extract_value(),
                None => None,
            },
            None => None,
        }
    }

    /// The fragment at `path`.
    pub fn get_namespace(&self, path: &Vec<String>) -> (r: Option<&NamespaceNode<T>>)
        ensures
            match r {
                Some(n) => self.tree().descend(strings_view(path@)) == Some(n@),
                None => self.tree().descend(strings_view(path@)) is None,
            },
    {
        assert(strings_view(path@).skip(0) =~= strings_view(path@));
        self.root.wind_to_fragment(path, 0)
    }

    /// Puts `value` at the fragment `path` itself, which loses its
    /// children. The last fragment of `path` is the name of the value.
    pub fn insert_at_module(&mut self, path: &Vec<String>, value: T)
        ensures
            final(self).tree() == old(self).tree().emplace(strings_view(path@), value),
            final(self).separator() == old(self).separator(),
            final(self).tree().name is None,
            final(self).tree().wf(),
    {
        assert(strings_view(path@).skip(0) =~= strings_view(path@));
        let mut root = self.take_root();
        root.emplace(path, 0, value);
        proof {
            lemma_emplace_keeps_name(old(self).tree(), strings_view(path@), value);
            use_type_invariant(&root);
        }
        self.root = root;
    }

    /// Puts `value` under the name `name` inside the fragment `path`.
    pub fn insert_in_module(&mut self, path: &Vec<String>, name: &str, value: T)
        ensures
            final(self).tree() == old(self).tree().emplace(
                strings_view(path@).push(name@),
                value,
            ),
            final(self).separator() == old(self).separator(),
            final(self).tree().name is None,
            final(self).tree().wf(),
            final(self).tree().get(strings_view(path@).push(name@)) == Some(value),
    {
        let mut full = crate::text::copy_strings(path);
        let ghost before = strings_view(full@);
        full.push(name.to_owned());
        assert(strings_view(full@) =~= before.push(name@));
        assert(strings_view(full@).skip(0) =~= strings_view(full@));
        let mut root = self.take_root();
        proof {
            lemma_emplace_get(root@, strings_view(full@), value);
        }
        root.emplace(&full, 0, value);
        proof {
            lemma_emplace_keeps_name(old(self).tree(), strings_view(full@), value);
            use_type_invariant(&root);
        }
        self.root = root;
    }

    /// Makes sure that there is a fragment at `path`.
    pub fn new_module(&mut self, path: &Vec<String>)
        ensures
            final(self).tree() == old(self).tree().with_module(strings_view(path@)),
            final(self).separator() == old(self).separator(),
            final(self).tree().name is None,
            final(self).tree().wf(),
    {
        assert(strings_view(path@).skip(0) =~= strings_view(path@));
        let mut root = self.take_root();
        root.new_module(path, 0);
        proof {
            lemma_with_module_keeps_name(old(self).tree(), strings_view(path@));
            use_type_invariant(&root);
        }
        self.root = root;
    }
}

} // verus!
