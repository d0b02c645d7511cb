//! Paths of files.
//!
//! How the names of a path are put together differs between systems, so a path is kept in parts
//! here: a host puts them together as its system does.

use crate::text::views;
use vstd::prelude::*;

verus! {

broadcast use vstd::string::group_string_axioms;

/// A file or a directory: names, each below the one before it, and the first below `base`.
#[derive(Debug)]
pub struct FilePath {
    pub base: String,
    pub names: Vec<String>,
}

/// The contents of a `FilePath`.
pub struct PathView {
    pub base: Seq<char>,
    pub names: Seq<Seq<char>>,
}

impl View for FilePath {
    type V = PathView;

    open spec fn view(&self) -> PathView {
        PathView { base: self.base@, names: views(self.names@) }
    }
}

/// The path of `base` itself.
pub open spec fn path_at(base: Seq<char>) -> PathView {
    PathView { base, names: Seq::empty() }
}

impl PathView {
    /// The path of what is called `name` in the directory.
    pub open spec fn below(self, name: Seq<char>) -> PathView {
        PathView { names: self.names.push(name), ..self }
    }
}

impl FilePath {
    /// The path of `base` itself.
    pub fn at(base: &str) -> (r: Self)
        ensures
            r@ == path_at(base@),
    {
        let path = FilePath { base: base.to_string(), names: Vec::new() };
        assert(path@.names =~= Seq::empty());
        path
    }

    /// The path of what is called `name` in the directory.
    pub fn join(self, name: &str) -> (r: Self)
        ensures
            r@ == self@.below(name@),
    {
        let ghost before = self@.names;
        let FilePath { base, names } = self;
        let mut longer = names;
        longer.push(name.to_string());
        let path = FilePath { base, names: longer };
        assert(path@.names =~= before.push(name@));
        path
    }
}

} // verus!
