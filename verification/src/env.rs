//! The environment: a store of bindings under fully qualified names, and the
//! ordered list of namespaces that an unqualified name is looked up in.

use crate::expression::{Expression, Native, Value};
use crate::namespace::{
    lemma_path_lt_irreflexive, lemma_path_lt_total, lemma_path_lt_transitive, Namespace,
    NamespaceItem, Path,
};
use crate::text::{split_path, Rank};
use vstd::prelude::*;

verus! {

/// The bindings and the namespaces in scope.
///
/// The bindings are kept in the order of their keys, each key once.
#[derive(Debug, PartialEq, PartialOrd)]
pub struct Environment {
    contents: Vec<(NamespaceItem, Expression)>,
    in_scope: Vec<Namespace>,
}

/// The mathematical value of an [`Environment`]: the bindings in the order
/// of their keys, and the namespaces in scope in the order in which they
/// were added.
pub struct Scope {
    pub bindings: Seq<(Path, Value)>,
    pub scopes: Seq<Seq<Seq<char>>>,
}

/// The values of a sequence of bindings.
pub open spec fn bindings(s: Seq<(NamespaceItem, Expression)>) -> Seq<(Path, Value)>
    decreases s,
{
    Seq::new(
        s.len(),
        |i: int|
            if 0 <= i < s.len() {
                (s[i].0@, s[i].1.value())
            } else {
                (Path { frags: Seq::empty(), target: Seq::empty() }, Value::Nil)
            },
    )
}

/// The fragments of a sequence of namespaces.
pub open spec fn namespaces(s: Seq<Namespace>) -> Seq<Seq<Seq<char>>> {
    Seq::new(s.len(), |i: int| s[i]@)
}

impl Environment {
    /// The environment as a mathematical value.
    pub closed spec fn scope(&self) -> Scope
        decreases self,
    {
        Scope { bindings: bindings(self.contents@), scopes: namespaces(self.in_scope@) }
    }

    /// The bindings are in the strict order of their keys.
    #[verifier::type_invariant]
    pub closed spec fn ordered(&self) -> bool {
        forall|i: int, j: int|
            0 <= i < j < self.contents.len() ==> (#[trigger] self.contents[i]).0@.lt(
                (#[trigger] self.contents[j]).0@,
            )
    }
}

impl View for Environment {
    type V = Scope;

    open spec fn view(&self) -> Scope {
        self.scope()
    }
}


impl Environment {
    /// A deep copy: the bindings and the scopes are copied wholesale.
    #[verifier::loop_isolation(false)]
    pub fn copy(&self) -> (r: Environment)
        ensures
            r@ == self@,
        decreases self,
    {
        proof {
            use_type_invariant(self);
        }
        let mut contents: Vec<(NamespaceItem, Expression)> = Vec::new();
        let mut i: usize = 0;
        while i < self.contents.len()
            invariant
                i <= self.contents.len(),
                contents.len() == i,
                forall|j: int|
                    0 <= j < i ==> contents[j].0@ == self.contents[j].0@ && contents[j].1@
                        == self.contents[j].1@,
            decreases self.contents.len() - i,
        {
            contents.push((self.contents[i].0.copy(), self.contents[i].1.copy()));
            i += 1;
        }
        let mut in_scope: Vec<Namespace> = Vec::new();
        let mut k: usize = 0;
        while k < self.in_scope.len()
            invariant
                k <= self.in_scope.len(),
                in_scope.len() == k,
                forall|j: int| 0 <= j < k ==> in_scope[j]@ == self.in_scope[j]@,
            decreases self.in_scope.len() - k,
        {
            in_scope.push(self.in_scope[k].copy());
            k += 1;
        }
        assert(bindings(contents@) =~= bindings(self.contents@));
        assert(namespaces(in_scope@) =~= namespaces(self.in_scope@));
        Environment { contents, in_scope }
    }
}

impl Clone for Environment {
    fn clone(&self) -> (r: Self)
        ensures
            r@ == self@,
    {
        self.copy()
    }
}


/// The number of leading bindings of `b` whose key comes before `key`.
pub open spec fn position(b: Seq<(Path, Value)>, key: Path) -> nat
    decreases b.len(),
{
    if b.len() == 0 || !b[0].0.lt(key) {
        0
    } else {
        1 + position(b.skip(1), key)
    }
}

/// The keys of `b` are in strictly ascending order.
pub open spec fn sorted(b: Seq<(Path, Value)>) -> bool {
    forall|i: int, j: int| 0 <= i < j < b.len() ==> (#[trigger] b[i]).0.lt((#[trigger] b[j]).0)
}

impl Scope {
    /// The scope without bindings and without namespaces in scope.
    pub open spec fn empty() -> Scope {
        Scope { bindings: Seq::empty(), scopes: Seq::empty() }
    }

    /// The bindings are in the strict order of their keys; so no key
    /// occurs twice.
    pub open spec fn wf(self) -> bool {
        sorted(self.bindings)
    }

    /// The value bound to exactly the key `key`.
    pub open spec fn lookup(self, key: Path) -> Option<Value> {
        let p = position(self.bindings, key) as int;
        if p < self.bindings.len() && self.bindings[p].0 == key {
            Some(self.bindings[p].1)
        } else {
            None
        }
    }

    /// The scope in which `key` is bound to `value` and every other key is
    /// bound as before.
    pub open spec fn insert(self, key: Path, value: Value) -> Scope {
        let p = position(self.bindings, key) as int;
        if p < self.bindings.len() && self.bindings[p].0 == key {
            Scope { bindings: self.bindings.update(p, (key, value)), scopes: self.scopes }
        } else {
            Scope { bindings: self.bindings.insert(p, (key, value)), scopes: self.scopes }
        }
    }

    /// The scope with `ns` added at the end of the search path.
    pub open spec fn add_scope(self, ns: Seq<Seq<char>>) -> Scope {
        Scope { bindings: self.bindings, scopes: self.scopes.push(ns) }
    }

    /// The first namespace in scope, from index `from` on, in which `name`
    /// is bound, as the key of that binding.
    pub open spec fn resolve_in_scopes(self, name: Seq<char>, from: int) -> Option<Path>
        decreases self.scopes.len() - from,
    {
        if from < 0 || from >= self.scopes.len() {
            None
        } else if self.lookup(Path::inside(self.scopes[from], name)) is Some {
            Some(Path::inside(self.scopes[from], name))
        } else {
            self.resolve_in_scopes(name, from + 1)
        }
    }

    /// The key that `name` resolves to: `name` read as a fully qualified
    /// name if that is bound; else `name` inside the first namespace in
    /// scope that binds it.
    pub open spec fn resolve(self, name: Seq<char>) -> Option<Path> {
        if self.lookup(Path::parse(name)) is Some {
            Some(Path::parse(name))
        } else {
            self.resolve_in_scopes(name, 0)
        }
    }

    /// The value that `name` resolves to.
    pub open spec fn get(self, name: Seq<char>) -> Option<Value> {
        match self.resolve(name) {
            Some(key) => self.lookup(key),
            None => None,
        }
    }

    /// The qualified name of what `name` resolves to: `name` itself if it
    /// is bound as a fully qualified name; else the printed key of its
    /// binding in the first namespace in scope that has one; else nothing.
    /// A name has a qualified name exactly if it resolves.
    pub open spec fn qualified_name(self, name: Seq<char>) -> Option<Seq<char>> {
        if self.lookup(Path::parse(name)) is Some {
            Some(name)
        } else {
            match self.resolve_in_scopes(name, 0) {
                Some(key) => Some(key.text()),
                None => None,
            }
        }
    }
}

impl Scope {
    /// This scope with `name`, read as a fully qualified name, bound to the
    /// primitive `native`.
    pub open spec fn with_native(self, name: Seq<char>, native: Native) -> Scope {
        self.insert(Path::parse(name), Value::Func(native))
    }

    /// This scope with the namespace that `name` names added to the search
    /// path.
    pub open spec fn with_namespace(self, name: Seq<char>) -> Scope {
        self.add_scope(split_path(name))
    }

    /// This scope with the boolean, formatting and system primitives.
    pub open spec fn with_basics(self) -> Scope {
        self.with_native("not"@, Native::Not).with_namespace("std::macros"@).with_native(
            "std::macros::panic"@,
            Native::Panic,
        ).with_native("std::macros::format"@, Native::Format).with_native(
            "std::macros::println"@,
            Native::Println,
        ).with_native("std::sys::exit"@, Native::Exit)
    }

    /// This scope with the comparisons.
    pub open spec fn with_comparisons(self) -> Scope {
        self.with_namespace("std::cmp"@).with_native("std::cmp::="@, Native::Eq).with_native(
            "std::cmp::/="@,
            Native::Ne,
        ).with_native("std::cmp::>"@, Native::Gt).with_native("std::cmp::<"@, Native::Lt).with_native(
            "std::cmp::>="@,
            Native::Ge,
        ).with_native("std::cmp::<="@, Native::Le)
    }

    /// This scope with the arithmetic primitives and the constants `pi` and
    /// `e`.
    pub open spec fn with_math(self) -> Scope {
        self.with_namespace("std::math"@).with_namespace("std::math::consts"@).with_native(
            "std::math::+"@,
            Native::Add,
        ).with_native("std::math::-"@, Native::Sub).with_native(
            "std::math::*"@,
            Native::Mul,
        ).with_native("std::math::/"@, Native::Div).with_native(
            "std::math::rem"@,
            Native::Rem,
        ).with_native("std::math::pow"@, Native::Pow).with_native(
            "std::math::ash"@,
            Native::Ash,
        ).insert(
            Path::parse("std::math::consts::pi"@),
            Value::Number("3.141592653589793"@),
        ).insert(Path::parse("std::math::consts::e"@), Value::Number("2.718281828459045"@))
    }

    /// This scope with the list and string primitives.
    pub open spec fn with_lists(self) -> Scope {
        self.with_namespace("std::list"@).with_native("std::list::car"@, Native::Car).with_native(
            "std::list::cdr"@,
            Native::Cdr,
        ).with_native("std::list::cons"@, Native::Cons).with_native(
            "std::list::append"@,
            Native::Append,
        ).with_native("std::list::list"@, Native::List).with_native(
            "std::list::empty?"@,
            Native::IsEmpty,
        ).with_native("std::list::len"@, Native::Len).with_namespace(
            "std::string"@,
        ).with_native("std::string::string->list"@, Native::AsList).with_native(
            "std::string::list->string"@,
            Native::FromList,
        )
    }

    /// The scope of a calculator: the four operations of arithmetic,
    /// equality and `pi`, with their namespaces and `local` in scope.
    pub open spec fn math_std() -> Scope {
        Scope::empty().with_namespace("std::math"@).with_namespace("std::cmp"@).with_namespace(
            "std::math::consts"@,
        ).with_namespace("local"@).with_native("std::math::+"@, Native::Add).with_native(
            "std::math::-"@,
            Native::Sub,
        ).with_native("std::math::*"@, Native::Mul).with_native(
            "std::math::/"@,
            Native::Div,
        ).with_native("std::cmp::="@, Native::Eq).insert(
            Path::parse("std::math::consts::pi"@),
            Value::Number("3.141592653589793"@),
        )
    }

    /// This scope with every primitive and constant of the language under
    /// its qualified name, and their namespaces in scope.
    pub open spec fn with_core(self) -> Scope {
        self.with_basics().with_comparisons().with_math().with_lists()
    }
}

/// In ordered bindings, the keys before position `position(b, key)` come
/// before `key`, and the keys from there on do not.
pub proof fn lemma_position(b: Seq<(Path, Value)>, key: Path)
    requires
        sorted(b),
    ensures
        0 <= position(b, key) <= b.len(),
        forall|i: int| 0 <= i < position(b, key) ==> (#[trigger] b[i]).0.lt(key),
        forall|i: int| position(b, key) <= i < b.len() ==> !(#[trigger] b[i]).0.lt(key),
    decreases b.len(),
{
    if b.len() == 0 {
    } else if !b[0].0.lt(key) {
        assert forall|i: int| 0 <= i < b.len() implies !(#[trigger] b[i]).0.lt(key) by {
            if i > 0 && b[i].0.lt(key) {
                assert(b[0].0.lt(b[i].0));
                lemma_path_lt_transitive(b[0].0, b[i].0, key);
            }
        }
    } else {
        let rest = b.skip(1);
        assert forall|i: int, j: int| 0 <= i < j < rest.len() implies (#[trigger] rest[i]).0.lt(
            (#[trigger] rest[j]).0,
        ) by {
            assert(rest[i] == b[i + 1]);
            assert(rest[j] == b[j + 1]);
        }
        lemma_position(rest, key);
        let p = position(b, key) as int;
        assert forall|i: int| 0 <= i < p implies (#[trigger] b[i]).0.lt(key) by {
            if i > 0 {
                assert(b[i] == rest[i - 1]);
            }
        }
        assert forall|i: int| p <= i < b.len() implies !(#[trigger] b[i]).0.lt(key) by {
            assert(b[i] == rest[i - 1]);
        }
    }
}

/// A key is bound in ordered bindings exactly if some binding has it, and
/// then to that binding's value.
pub proof fn lemma_lookup_is_membership(s: Scope, key: Path, i: int)
    requires
        s.wf(),
        0 <= i < s.bindings.len(),
        s.bindings[i].0 == key,
    ensures
        s.lookup(key) == Some(s.bindings[i].1),
{
    lemma_position(s.bindings, key);
    lemma_path_lt_irreflexive(key);
    let p = position(s.bindings, key) as int;
    if p < i {
        assert(s.bindings[p].0.lt(s.bindings[i].0));
    }
}

/// If no binding has the key, the key is not bound.
pub proof fn lemma_lookup_none(s: Scope, key: Path)
    requires
        forall|i: int| 0 <= i < s.bindings.len() ==> (#[trigger] s.bindings[i]).0 != key,
    ensures
        s.lookup(key) is None,
{
    let p = position(s.bindings, key) as int;
    if 0 <= p < s.bindings.len() {
        assert(s.bindings[p].0 != key);
    }
}

/// Inserting keeps the bindings ordered.
pub proof fn lemma_insert_wf(s: Scope, key: Path, value: Value)
    requires
        s.wf(),
    ensures
        s.insert(key, value).wf(),
{
    let b = s.bindings;
    let p = position(b, key) as int;
    lemma_position(b, key);
    let n = s.insert(key, value).bindings;
    if p < b.len() && b[p].0 == key {
        assert forall|i: int, j: int| 0 <= i < j < n.len() implies (#[trigger] n[i]).0.lt(
            (#[trigger] n[j]).0,
        ) by {
            assert(n[i].0 == b[i].0);
            assert(n[j].0 == b[j].0);
        }
    } else {
        assert forall|i: int, j: int| 0 <= i < j < n.len() implies (#[trigger] n[i]).0.lt(
            (#[trigger] n[j]).0,
        ) by {
            if j < p {
                assert(n[i] == b[i] && n[j] == b[j]);
            } else if j == p {
                assert(n[i] == b[i]);
            } else if i == p {
                assert(n[j] == b[j - 1]);
                lemma_path_lt_total(b[p].0, key);
                if j - 1 > p {
                    assert(b[p].0.lt(b[j - 1].0));
                    lemma_path_lt_transitive(key, b[p].0, b[j - 1].0);
                }
            } else if i < p {
                assert(n[i] == b[i] && n[j] == b[j - 1]);
            } else {
                assert(n[i] == b[i - 1] && n[j] == b[j - 1]);
            }
        }
    }
}

/// After inserting, the inserted key is bound to the inserted value and
/// every other key is bound as it was.
pub proof fn lemma_insert_lookup(s: Scope, key: Path, value: Value, other: Path)
    requires
        s.wf(),
    ensures
        s.insert(key, value).lookup(other) == if other == key {
            Some(value)
        } else {
            s.lookup(other)
        },
{
    let b = s.bindings;
    let p = position(b, key) as int;
    lemma_position(b, key);
    lemma_insert_wf(s, key, value);
    let t = s.insert(key, value);
    let n = t.bindings;
    let replaced = p < b.len() && b[p].0 == key;
    if other == key {
        assert(n[p] == (key, value));
        lemma_lookup_is_membership(t, key, p);
    } else {
        let q = position(b, other) as int;
        lemma_position(b, other);
        if q < b.len() && b[q].0 == other {
            // bound before: still bound, at a possibly shifted index
            if replaced {
                assert(n[q] == b[q]);
                lemma_lookup_is_membership(t, other, q);
            } else if q < p {
                assert(n[q] == b[q]);
                lemma_lookup_is_membership(t, other, q);
            } else {
                assert(n[q + 1] == b[q]);
                lemma_lookup_is_membership(t, other, q + 1);
            }
        } else {
            // not bound before: no binding of the new sequence has it
            assert forall|i: int| 0 <= i < n.len() implies (#[trigger] n[i]).0 != other by {
                if replaced {
                    if i != p {
                        assert(n[i] == b[i]);
                    }
                    if b[i].0 == other {
                        lemma_lookup_is_membership(s, other, i);
                    }
                } else if i < p {
                    assert(n[i] == b[i]);
                    if b[i].0 == other {
                        lemma_lookup_is_membership(s, other, i);
                    }
                } else if i > p {
                    assert(n[i] == b[i - 1]);
                    if b[i - 1].0 == other {
                        lemma_lookup_is_membership(s, other, i - 1);
                    }
                }
            }
            lemma_lookup_none(t, other);
        }
    }
}

/// The value of what a lookup handed out.
pub open spec fn found(r: Option<&Expression>) -> Option<Value> {
    match r {
        Some(e) => Some(e@),
        None => None,
    }
}

/// The characters of an optional string.
pub open spec fn text_of(r: Option<String>) -> Option<Seq<char>> {
    match r {
        Some(s) => Some(s@),
        None => None,
    }
}

/// The position of `key` among `contents`, and whether the binding there
/// has that key.
fn locate(contents: &Vec<(NamespaceItem, Expression)>, key: &NamespaceItem) -> (r: (usize, bool))
    ensures
        r.0 == position(bindings(contents@), key@),
        r.0 <= contents.len(),
        r.1 == (r.0 < contents.len() && contents[r.0 as int].0@ == key@),
{
    let ghost b = bindings(contents@);
    let mut i: usize = 0;
    assert(b.skip(0) =~= b);
    while i < contents.len()
        invariant
            i <= contents.len(),
            b == bindings(contents@),
            position(b, key@) == i + position(b.skip(i as int), key@),
        decreases contents.len() - i,
    {
        assert(b.skip(i as int)[0] == b[i as int]);
        assert(b[i as int].0 == contents[i as int].0@);
        match contents[i].0.rank(key) {
            Rank::Before => {
                assert(b.skip(i as int).skip(1) =~= b.skip(i + 1));
            },
            Rank::Same => {
                proof {
                    lemma_path_lt_irreflexive(key@);
                }
                return (i, true);
            },
            Rank::After => {
                proof {
                    lemma_path_lt_irreflexive(key@);
                    if b[i as int].0.lt(key@) {
                        lemma_path_lt_transitive(key@, b[i as int].0, key@);
                    }
                }
                return (i, false);
            },
        }
        i += 1;
    }
    (i, false)
}

impl Environment {
    /// The model of ordered contents is well formed.
    pub proof fn lemma_wf(&self)
        requires
            self.ordered(),
        ensures
            self@.wf(),
    {
        let b = bindings(self.contents@);
        assert forall|i: int, j: int| 0 <= i < j < b.len() implies (#[trigger] b[i]).0.lt(
            (#[trigger] b[j]).0,
        ) by {
            assert(self.contents[i].0@.lt(self.contents[j].0@));
        }
    }

    /// The environment without bindings and without scopes.
    pub fn empty() -> (r: Self)
        ensures
            r@ == Scope::empty(),
            r@.wf(),
    {
        let r = Environment { contents: Vec::new(), in_scope: Vec::new() };
        assert(r@.bindings =~= Seq::empty());
        assert(r@.scopes =~= Seq::empty());
        r
    }

    /// The namespaces in scope, in the order in which they were added.
    pub fn scopes(&self) -> (r: &[Namespace])
        ensures
            namespaces(r@) == self@.scopes,
    {
        self.in_scope.as_slice()
    }

    /// The number of bindings. The bindings of an environment are always
    /// in the order of their keys.
    pub fn len(&self) -> (r: usize)
        ensures
            r == self@.bindings.len(),
            self@.wf(),
    {
        proof {
            use_type_invariant(self);
            self.lemma_wf();
        }
        self.contents.len()
    }

    /// Every binding's printed key and target, in the order of the keys.
    pub fn full_path_and_name(&self) -> (r: Vec<(String, &str)>)
        ensures
            r.len() == self@.bindings.len(),
            forall|i: int|
                0 <= i < r.len() ==> (#[trigger] r[i]).0@ == self@.bindings[i].0.text() && r[i].1@
                    == self@.bindings[i].0.target,
    {
        let mut out: Vec<(String, &str)> = Vec::new();
        let mut i: usize = 0;
        while i < self.contents.len()
            invariant
                i <= self.contents.len(),
                out.len() == i,
                forall|j: int|
                    0 <= j < i ==> (#[trigger] out[j]).0@ == self@.bindings[j].0.text() && out[j].1@
                        == self@.bindings[j].0.target,
            decreases self.contents.len() - i,
        {
            let key = &self.contents[i].0;
            assert(self@.bindings[i as int].0 == key@);
            out.push((key.to_string(), key.target()));
            i += 1;
        }
        out
    }

    /// Every binding's target, in the order of the keys.
    pub fn values(&self) -> (r: Vec<&str>)
        ensures
            r.len() == self@.bindings.len(),
            forall|i: int| 0 <= i < r.len() ==> (#[trigger] r[i])@ == self@.bindings[i].0.target,
    {
        let mut out: Vec<&str> = Vec::new();
        let mut i: usize = 0;
        while i < self.contents.len()
            invariant
                i <= self.contents.len(),
                out.len() == i,
                forall|j: int|
                    0 <= j < i ==> (#[trigger] out[j])@ == self@.bindings[j].0.target,
            decreases self.contents.len() - i,
        {
            let key = &self.contents[i].0;
            assert(self@.bindings[i as int].0 == key@);
            out.push(key.target());
            i += 1;
        }
        out
    }

    /// This environment with `ns` added at the end of the search path.
    pub fn with_scope(self, ns: Namespace) -> (r: Self)
        ensures
            r@ == self@.add_scope(ns@),
    {
        let mut env = self;
        env.add_scope(ns);
        env
    }

    /// Adds `ns` at the end of the search path.
    pub fn add_scope(&mut self, ns: Namespace)
        ensures
            final(self)@ == old(self)@.add_scope(ns@),
    {
        proof {
            use_type_invariant(&*self);
        }
        let mut in_scope: Vec<Namespace> = Vec::new();
        core::mem::swap(&mut self.in_scope, &mut in_scope);
        in_scope.push(ns);
        assert(namespaces(in_scope@) =~= old(self)@.scopes.push(ns@));
        self.in_scope = in_scope;
    }

    /// Binds `item` to `val`, in place of what it was bound to.
    pub fn insert_item(&mut self, item: NamespaceItem, val: Expression)
        ensures
            final(self)@ == old(self)@.insert(item@, val@),
            old(self)@.wf(),
            final(self)@.wf(),
    {
        proof {
            use_type_invariant(&*self);
            self.lemma_wf();
            lemma_insert_wf(self@, item@, val@);
        }
        let ghost before = self@;
        let ghost key = item@;
        let ghost value = val@;
        let mut contents: Vec<(NamespaceItem, Expression)> = Vec::new();
        core::mem::swap(&mut self.contents, &mut contents);
        assert(bindings(contents@) == before.bindings);
        let (p, present) = locate(&contents, &item);
        if present {
            contents.set(p, (item, val));
            assert(bindings(contents@) =~= before.bindings.update(p as int, (key, value)));
        } else {
            contents.insert(p, (item, val));
            assert(bindings(contents@) =~= before.bindings.insert(p as int, (key, value)));
        }
        proof {
            let after = before.insert(key, value).bindings;
            assert(bindings(contents@) == after);
            assert forall|i: int, j: int| 0 <= i < j < contents.len() implies (
            #[trigger] contents[i]).0@.lt((#[trigger] contents[j]).0@) by {
                assert(after[i].0.lt(after[j].0));
            }
        }
        self.contents = contents;
    }

    /// Binds the key that `key` names to `val`.
    pub fn insert(&mut self, key: &str, val: Expression)
        ensures
            final(self)@ == old(self)@.insert(Path::parse(key@), val@),
            old(self)@.wf(),
            final(self)@.wf(),
    {
        self.insert_item(NamespaceItem::from_str(key), val);
    }

    /// The index of the binding with exactly the key `key`.
    fn index_of(&self, key: &NamespaceItem) -> (r: Option<usize>)
        ensures
            match r {
                Some(i) => i < self.contents.len() && self@.lookup(key@) == Some(
                    self.contents[i as int].1@,
                ) && self@.bindings[i as int].0 == key@ && i == position(self@.bindings, key@),
                None => self@.lookup(key@) is None,
            },
    {
        let (p, present) = locate(&self.contents, key);
        if present {
            assert(self@.bindings[p as int] == (self.contents[p as int].0@, self.contents[p as int].1@));
            Some(p)
        } else {
            if p < self.contents.len() {
                assert(self@.bindings[p as int].0 == self.contents[p as int].0@);
            }
            None
        }
    }

    /// The index of the binding of `name` in the first namespace in scope
    /// that has one.
    fn index_in_scopes(&self, name: &str) -> (r: Option<usize>)
        ensures
            match r {
                Some(i) => i < self.contents.len() && self@.resolve_in_scopes(name@, 0) == Some(
                    self@.bindings[i as int].0,
                ) && self@.lookup(self@.bindings[i as int].0) == Some(self.contents[i as int].1@),
                None => self@.resolve_in_scopes(name@, 0) is None,
            },
    {
        let mut k: usize = 0;
        while k < self.in_scope.len()
            invariant
                k <= self.in_scope.len(),
                self@.resolve_in_scopes(name@, 0) == self@.resolve_in_scopes(name@, k as int),
            decreases self.in_scope.len() - k,
        {
            let try_item = self.in_scope[k].join(name);
            assert(self@.scopes[k as int] == self.in_scope[k as int]@);
            match self.index_of(&try_item) {
                Some(i) => {
                    return Some(i);
                },
                None => {},
            }
            k += 1;
        }
        None
    }

    /// The index of the binding that `name` resolves to.
    fn resolve_index(&self, name: &str) -> (r: Option<usize>)
        ensures
            match r {
                Some(i) => i < self.contents.len() && self@.resolve(name@) == Some(
                    self@.bindings[i as int].0,
                ) && self@.get(name@) == Some(self.contents[i as int].1@),
                None => self@.resolve(name@) is None && self@.get(name@) is None,
            },
    {
        let exact = NamespaceItem::from_str(name);
        match self.index_of(&exact) {
            Some(i) => Some(i),
            None => self.index_in_scopes(name),
        }
    }

    /// What `key` resolves to: the binding of `key` read as a fully
    /// qualified name; else its binding in the first namespace in scope that
    /// has one; else nothing.
    pub fn get(&self, key: &str) -> (r: Option<&Expression>)
        ensures
            found(r) == self@.get(key@),
            self@.wf(),
    {
        proof {
            use_type_invariant(self);
            self.lemma_wf();
        }
        match self.resolve_index(key) {
            Some(i) => Some(&self.contents[i].1),
            None => None,
        }
    }

    /// Whether `key` resolves to a binding.
    pub fn contains(&self, key: &str) -> (r: bool)
        ensures
            r == self@.get(key@) is Some,
    {
        self.resolve_index(key).is_some()
    }

    /// The qualified name of what `target` resolves to, by the resolution
    /// of [`Environment::get`]: `target` itself if it is bound as a fully
    /// qualified name; else the printed key of its binding in the first
    /// namespace in scope that has one; else nothing.
    pub fn get_namespace_str(&self, target: &str) -> (r: Option<String>)
        ensures
            text_of(r) == self@.qualified_name(target@),
            r.is_some() == self@.get(target@).is_some(),
    {
        proof {
            lemma_qualified_name_is_resolution(self@, target@);
        }
        let exact = NamespaceItem::from_str(target);
        if self.index_of(&exact).is_some() {
            return Some(target.to_owned());
        }
        match self.index_in_scopes(target) {
            Some(i) => {
                assert(self@.bindings[i as int].0 == self.contents[i as int].0@);
                Some(self.contents[i].0.to_string())
            },
            None => None,
        }
    }

    /// Binds `name`, read as a fully qualified name, to the primitive
    /// `native`.
    fn native(&mut self, name: &str, native: Native)
        ensures
            final(self)@ == old(self)@.with_native(name@, native),
    {
        self.insert(name, Expression::Func(native));
    }

    /// Adds the namespace that `name` names to the search path.
    fn namespace(&mut self, name: &str)
        ensures
            final(self)@ == old(self)@.with_namespace(name@),
    {
        self.add_scope(Namespace::from_str(name));
    }

    /// The environment of a calculator: the four operations of arithmetic,
    /// equality and `pi`, with their namespaces and `local` in scope.
    pub fn math_std_env() -> (r: Self)
        ensures
            r@ == Scope::math_std(),
    {
        let mut env = Self::empty();
        env.namespace("std::math");
        env.namespace("std::cmp");
        env.namespace("std::math::consts");
        env.namespace("local");
        env.native("std::math::+", Native::Add);
        env.native("std::math::-", Native::Sub);
        env.native("std::math::*", Native::Mul);
        env.native("std::math::/", Native::Div);
        env.native("std::cmp::=", Native::Eq);
        env.insert("std::math::consts::pi", Expression::number("3.141592653589793"));
        env
    }

    /// This environment with every primitive and constant of the language
    /// under its qualified name, and their namespaces in scope.
    pub fn with_core(self) -> (r: Self)
        ensures
            r@ == self@.with_core(),
    {
        let mut env = self;
        env.native("not", Native::Not);
        env.namespace("std::macros");
        env.native("std::macros::panic", Native::Panic);
        env.native("std::macros::format", Native::Format);
        env.native("std::macros::println", Native::Println);
        env.native("std::sys::exit", Native::Exit);
        assert(env@ == self@.with_basics());
        env.namespace("std::cmp");
        env.native("std::cmp::=", Native::Eq);
        env.native("std::cmp::/=", Native::Ne);
        env.native("std::cmp::>", Native::Gt);
        env.native("std::cmp::<", Native::Lt);
        env.native("std::cmp::>=", Native::Ge);
        env.native("std::cmp::<=", Native::Le);
        assert(env@ == self@.with_basics().with_comparisons());
        env.namespace("std::math");
        env.namespace("std::math::consts");
        env.native("std::math::+", Native::Add);
        env.native("std::math::-", Native::Sub);
        env.native("std::math::*", Native::Mul);
        env.native("std::math::/", Native::Div);
        env.native("std::math::rem", Native::Rem);
        env.native("std::math::pow", Native::Pow);
        env.native("std::math::ash", Native::Ash);
        env.insert("std::math::consts::pi", Expression::number("3.141592653589793"));
        env.insert("std::math::consts::e", Expression::number("2.718281828459045"));
        assert(env@ == self@.with_basics().with_comparisons().with_math());
        env.namespace("std::list");
        env.native("std::list::car", Native::Car);
        env.native("std::list::cdr", Native::Cdr);
        env.native("std::list::cons", Native::Cons);
        env.native("std::list::append", Native::Append);
        env.native("std::list::list", Native::List);
        env.native("std::list::empty?", Native::IsEmpty);
        env.native("std::list::len", Native::Len);
        env.namespace("std::string");
        env.native("std::string::string->list", Native::AsList);
        env.native("std::string::list->string", Native::FromList);
        env
    }

    /// The finished environment.
    pub fn build(self) -> (r: Self)
        ensures
            r@ == self@,
    {
        self
    }
}

/// A name has a qualified name exactly if it resolves to a binding, and the
/// qualified name is that of the key it resolves to.
pub proof fn lemma_qualified_name_is_resolution(s: Scope, name: Seq<char>)
    ensures
        s.qualified_name(name) is Some <==> s.get(name) is Some,
        s.qualified_name(name) is Some <==> s.resolve(name) is Some,
        s.lookup(Path::parse(name)) is None && s.resolve(name) is Some ==> s.qualified_name(name)
            == Some(s.resolve(name)->0.text()),
{
    if s.lookup(Path::parse(name)) is None {
        lemma_resolved_is_bound(s, name, 0);
    }
}

/// The key that a name resolves to in the namespaces in scope is bound.
pub proof fn lemma_resolved_is_bound(s: Scope, name: Seq<char>, from: int)
    requires
        0 <= from,
    ensures
        s.resolve_in_scopes(name, from) matches Some(key) ==> s.lookup(key) is Some,
    decreases s.scopes.len() - from,
{
    if from < s.scopes.len() && s.lookup(Path::inside(s.scopes[from], name)) is None {
        lemma_resolved_is_bound(s, name, from + 1);
    }
}

/// A name that is bound as a fully qualified name resolves to that binding,
/// whatever the namespaces in scope hold.
pub proof fn lemma_exact_match_wins(s: Scope, name: Seq<char>)
    requires
        s.lookup(Path::parse(name)) is Some,
    ensures
        s.get(name) == s.lookup(Path::parse(name)),
{
}

/// The first namespace in scope that binds a name wins: if the name is not
/// bound as a fully qualified name, the namespace at index `i` of the search
/// path binds it and no namespace before it does, then the name resolves to
/// the binding in that namespace, whatever later namespaces hold.
pub proof fn lemma_first_scope_wins(s: Scope, name: Seq<char>, i: int)
    requires
        s.lookup(Path::parse(name)) is None,
        0 <= i < s.scopes.len(),
        s.lookup(Path::inside(s.scopes[i], name)) is Some,
        forall|j: int| 0 <= j < i ==> s.lookup(Path::inside(#[trigger] s.scopes[j], name)) is None,
    ensures
        s.resolve(name) == Some(Path::inside(s.scopes[i], name)),
        s.get(name) == s.lookup(Path::inside(s.scopes[i], name)),
{
    lemma_resolve_from(s, name, i, 0);
}

proof fn lemma_resolve_from(s: Scope, name: Seq<char>, i: int, from: int)
    requires
        0 <= from <= i < s.scopes.len(),
        s.lookup(Path::inside(s.scopes[i], name)) is Some,
        forall|j: int| 0 <= j < i ==> s.lookup(Path::inside(#[trigger] s.scopes[j], name)) is None,
    ensures
        s.resolve_in_scopes(name, from) == Some(Path::inside(s.scopes[i], name)),
    decreases i - from,
{
    if from < i {
        assert(s.lookup(Path::inside(s.scopes[from], name)) is None);
        lemma_resolve_from(s, name, i, from + 1);
    }
}

/// A name that is bound neither as a fully qualified name nor in any
/// namespace in scope does not resolve.
pub proof fn lemma_unbound_name(s: Scope, name: Seq<char>)
    requires
        s.lookup(Path::parse(name)) is None,
        forall|j: int|
            0 <= j < s.scopes.len() ==> s.lookup(Path::inside(#[trigger] s.scopes[j], name)) is None,
    ensures
        s.get(name) is None,
{
    lemma_unbound_from(s, name, 0);
}

proof fn lemma_unbound_from(s: Scope, name: Seq<char>, from: int)
    requires
        0 <= from,
        forall|j: int|
            0 <= j < s.scopes.len() ==> s.lookup(Path::inside(#[trigger] s.scopes[j], name)) is None,
    ensures
        s.resolve_in_scopes(name, from) is None,
    decreases s.scopes.len() - from,
{
    if from < s.scopes.len() {
        assert(s.lookup(Path::inside(s.scopes[from], name)) is None);
        lemma_unbound_from(s, name, from + 1);
    }
}

/// Adding a namespace to the search path never changes what a name that
/// already resolved resolves to: namespaces are only ever appended.
pub proof fn lemma_add_scope_keeps_resolution(s: Scope, ns: Seq<Seq<char>>, name: Seq<char>)
    requires
        s.get(name) is Some,
    ensures
        s.add_scope(ns).resolve(name) == s.resolve(name),
        s.add_scope(ns).get(name) == s.get(name),
{
    let t = s.add_scope(ns);
    assert forall|k: Path| t.lookup(k) == s.lookup(k) by {}
    if s.lookup(Path::parse(name)) is None {
        lemma_add_scope_from(s, ns, name, 0);
    }
}

proof fn lemma_add_scope_from(s: Scope, ns: Seq<Seq<char>>, name: Seq<char>, from: int)
    requires
        0 <= from,
        s.resolve_in_scopes(name, from) is Some,
    ensures
        s.add_scope(ns).resolve_in_scopes(name, from) == s.resolve_in_scopes(name, from),
    decreases s.scopes.len() - from,
{
    let t = s.add_scope(ns);
    assert(t.scopes[from] == s.scopes[from]);
    if s.lookup(Path::inside(s.scopes[from], name)) is None {
        lemma_add_scope_from(s, ns, name, from + 1);
    }
}

} // verus!
