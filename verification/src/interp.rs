//! The environment of functions of an interpreter that is yet to be built
//! on it: its types, and the one question that can be asked of them.

use crate::text::strings_view;
use vstd::prelude::*;

verus! {

/// The functions that a program can call.
pub struct Env {
    pub fns: Vec<FnMap>,
}

/// The namespace of a function and what it calls.
pub struct FnMap {}

/// The path of a namespace.
pub struct Namespace {
    pub path: Vec<String>,
}

impl View for Namespace {
    type V = Seq<Seq<char>>;

    open spec fn view(&self) -> Seq<Seq<char>> {
        strings_view(self.path@)
    }
}

impl Namespace {
    /// Whether this namespace lies in `other`. Every namespace counts as
    /// lying in every other.
    pub fn in_namespace(&self, other: &Self) -> (r: bool)
        ensures
            r,
    {
        true
    }
}

} // verus!
