//! The managed store root: the one absolute directory under which the
//! `mods`, `iwads`, `instances` and `saves` subdirectories live. It is
//! resolved once at startup and passed by reference to everything that
//! turns a store-relative path into an absolute one.

use vstd::prelude::*;
use vstd::string::*;

use crate::asset::{absolute_of, AssetKind};
use crate::paths::{is_absolute_path, joined, join_path, last_char_is, str_is_absolute, ends_with_char};

verus! {

pub struct StoreRoot {
    root: String,
}

impl View for StoreRoot {
    type V = Seq<char>;

    closed spec fn view(&self) -> Seq<char> {
        self.root@
    }
}

impl StoreRoot {
    /// A store root is an absolute path without a trailing `/`.
    pub open spec fn wf(self) -> bool {
        is_absolute_path(self@) && !last_char_is(self@, '/')
    }

    /// Accepts an absolute directory path without a trailing `/`.
    pub fn new(root: String) -> (r: Option<StoreRoot>)
        ensures
            match r {
                Some(s) => s@ == root@ && s.wf(),
                None => !(is_absolute_path(root@) && !last_char_is(root@, '/')),
            },
    {
        if str_is_absolute(root.as_str()) && !ends_with_char(root.as_str(), '/') {
            Some(StoreRoot { root })
        } else {
            None
        }
    }

    pub fn as_str(&self) -> (r: &str)
        ensures
            r@ == self@,
    {
        self.root.as_str()
    }

    /// The absolute location of `p`: unchanged when absolute, otherwise
    /// joined under the root.
    pub fn resolve(&self, p: &str) -> (r: String)
        ensures
            r@ == absolute_of(self@, p@),
    {
        if str_is_absolute(p) {
            p.to_owned()
        } else {
            join_path(self.root.as_str(), p)
        }
    }

    /// The absolute directory of an asset category.
    pub fn category_dir(&self, kind: AssetKind) -> (r: String)
        ensures
            r@ == joined(self@, kind.spec_dir_name()),
    {
        join_path(self.root.as_str(), kind.get_dir_name())
    }

    /// The absolute directory of the named store subdirectory.
    pub fn full_directory(&self, name: &str) -> (r: String)
        ensures
            r@ == joined(self@, name@),
    {
        join_path(self.root.as_str(), name)
    }
}

} // verus!
