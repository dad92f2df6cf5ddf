//! The three kinds of content that are kept in step with the remote store.

use crate::names::{ends_with, is_hidden, is_hidden_name};
use crate::text::has_suffix;
use vstd::prelude::*;

verus! {

/// A collection of files. Each has one local directory, one path on the remote
/// store, one rule on which file names belong to it, and one rule on whether
/// local files are pushed.
#[derive(Debug)]
pub enum Collection {
    /// The saved content files.
    Anga,
    /// The metadata files, one TOML file each.
    Meta,
    /// The text clusters that belong to the content file of this name. They
    /// are only ever fetched.
    Words(String),
}

/// A collection as a mathematical value.
pub enum Scope {
    Anga,
    Meta,
    Words(Seq<char>),
}

impl View for Collection {
    type V = Scope;

    open spec fn view(&self) -> Scope {
        match self {
            Collection::Anga => Scope::Anga,
            Collection::Meta => Scope::Meta,
            Collection::Words(anga) => Scope::Words(anga@),
        }
    }
}

impl Scope {
    /// The first component of the collection's path, locally and remotely.
    pub open spec fn segment(self) -> Seq<char> {
        match self {
            Scope::Anga => "anga"@,
            Scope::Meta => "meta"@,
            Scope::Words(_) => "words"@,
        }
    }

    /// Whether a file called `name` belongs to the collection. Hidden files
    /// never belong to `Anga` or `Meta`, and `Meta` holds `.toml` files only.
    pub open spec fn accepts(self, name: Seq<char>) -> bool {
        match self {
            Scope::Anga => !is_hidden(name),
            Scope::Meta => !is_hidden(name) && has_suffix(name, ".toml"@),
            Scope::Words(_) => true,
        }
    }

    /// Whether files that only exist locally are pushed to the remote store.
    pub open spec fn uploads(self) -> bool {
        !(self is Words)
    }

    /// The components of the collection's directory, below the data directory.
    pub open spec fn directory(self) -> Seq<Seq<char>> {
        match self {
            Scope::Anga => seq!["anga"@],
            Scope::Meta => seq!["meta"@],
            Scope::Words(anga) => seq!["words"@, anga],
        }
    }
}

impl Collection {
    /// `self` and `other` are the same collection.
    pub open spec fn same(&self, other: &Collection) -> bool {
        self@ == other@
    }

    /// The first component of the collection's path.
    pub fn remote_segment(&self) -> (segment: &'static str)
        ensures
            segment@ == self@.segment(),
    {
        match self {
            Collection::Anga => "anga",
            Collection::Meta => "meta",
            Collection::Words(_) => "words",
        }
    }

    /// Whether a file called `name` belongs to the collection.
    pub fn accepts_name(&self, name: &str) -> (r: bool)
        ensures
            r == self@.accepts(name@),
    {
        match self {
            Collection::Anga => !is_hidden_name(name),
            Collection::Meta => !is_hidden_name(name) && ends_with(name, ".toml"),
            Collection::Words(_) => true,
        }
    }

    /// Whether files that only exist locally are pushed to the remote store.
    pub fn allows_upload(&self) -> (r: bool)
        ensures
            r == self@.uploads(),
    {
        match self {
            Collection::Words(_) => false,
            _ => true,
        }
    }

    /// A copy of the collection.
    pub fn duplicate(&self) -> (copy: Collection)
        ensures
            copy@ == self@,
    {
        match self {
            Collection::Anga => Collection::Anga,
            Collection::Meta => Collection::Meta,
            Collection::Words(anga) => Collection::Words(anga.clone()),
        }
    }

    /// The components of the collection's directory, below the data directory.
    pub fn local_directory(&self) -> (path: Vec<String>)
        ensures
            path@.map_values(|s: String| s@) == self@.directory(),
    {
        let mut path: Vec<String> = Vec::new();
        match self {
            Collection::Anga => {
                path.push("anga".to_owned());
            },
            Collection::Meta => {
                path.push("meta".to_owned());
            },
            Collection::Words(anga) => {
                path.push("words".to_owned());
                path.push(anga.clone());
            },
        }
        assert(path@.map_values(|s: String| s@) =~= self@.directory());
        path
    }
}

} // verus!
