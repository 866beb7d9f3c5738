//! Asset references: a file path with an enabled flag, classified by a
//! static category that fixes its storage subdirectory and its
//! command-line argument prefix.

use vstd::prelude::*;
use vstd::string::*;

use crate::paths::{
    basename_of, contains_char, is_absolute_path, joined, file_name_of, join_path, parent_of,
};

verus! {

/// The closed set of asset categories.
#[derive(Clone, Copy, PartialEq, Eq, Structural, Debug)]
pub enum AssetKind {
    /// A game modification file, stored under `mods` and passed with `-file`.
    Mod,
    /// A base-game data file, stored under `iwads` and passed with `-iwad`.
    Iwad,
}

impl AssetKind {
    /// The storage subdirectory of the category.
    pub open spec fn spec_dir_name(self) -> Seq<char> {
        if self is Mod {
            "mods"@
        } else {
            "iwads"@
        }
    }

    /// The command-line prefix of the category.
    pub open spec fn spec_prefix(self) -> Seq<char> {
        if self is Mod {
            "-file"@
        } else {
            "-iwad"@
        }
    }

    pub fn get_dir_name(self) -> (r: &'static str)
        ensures
            r@ == self.spec_dir_name(),
    {
        match self {
            AssetKind::Mod => "mods",
            AssetKind::Iwad => "iwads",
        }
    }

    pub fn get_prefix(self) -> (r: &'static str)
        ensures
            r@ == self.spec_prefix(),
    {
        match self {
            AssetKind::Mod => "-file",
            AssetKind::Iwad => "-iwad",
        }
    }
}

/// The storage subdirectory never holds a `/` and is never empty.
pub proof fn lemma_dir_name_clean(kind: AssetKind)
    ensures
        !contains_char(kind.spec_dir_name(), '/'),
        kind.spec_dir_name().len() > 0,
{
    reveal_strlit("mods");
    reveal_strlit("iwads");
    if kind is Mod {
        assert(forall|i: int| 0 <= i < "mods"@.len() ==> "mods"@[i] != '/');
    } else {
        assert(forall|i: int| 0 <= i < "iwads"@.len() ==> "iwads"@[i] != '/');
    }
}

/// A toggleable reference to a file, either still outside the managed
/// store (absolute path) or inside it (store-relative path).
pub struct Asset {
    pub path: String,
    pub enabled: bool,
}

/// The mathematical value of an asset reference.
#[verifier::ext_equal]
pub ghost struct AssetV {
    pub path: Seq<char>,
    pub enabled: bool,
}

impl View for Asset {
    type V = AssetV;

    open spec fn view(&self) -> AssetV {
        AssetV { path: self.path@, enabled: self.enabled }
    }
}

/// Where a relocated or imported asset of category `kind` with basename
/// `name` lives, relative to the store root.
pub open spec fn relative_asset_path(kind: AssetKind, name: Seq<char>) -> Seq<char> {
    joined(kind.spec_dir_name(), name)
}

/// The absolute location of path `p` against store root `root`.
pub open spec fn absolute_of(root: Seq<char>, p: Seq<char>) -> Seq<char> {
    if is_absolute_path(p) {
        p
    } else {
        joined(root, p)
    }
}

impl Asset {
    pub fn new(path: String, enabled: bool) -> (r: Asset)
        ensures
            r@.path == path@,
            r@.enabled == enabled,
    {
        Asset { path, enabled }
    }

    /// Flips the enabled flag and nothing else.
    pub fn toggle(&mut self)
        ensures
            final(self)@.enabled == !old(self)@.enabled,
            final(self)@.path == old(self)@.path,
    {
        self.enabled = !self.enabled;
    }

    /// The basename of the reference's path, read as std's
    /// `Path::file_name` reads it.
    pub fn get_filename(&self) -> (r: Option<String>)
        ensures
            match r {
                Some(s) => s@ == basename_of(self@.path) && s@.len() > 0,
                None => basename_of(self@.path).len() == 0,
            },
    {
        file_name_of(self.path.as_str())
    }

    /// The store-relative path of an asset of category `kind` named `name`.
    pub fn get_relative_path(kind: AssetKind, name: &str) -> (r: String)
        ensures
            r@ == relative_asset_path(kind, name@),
    {
        join_path(kind.get_dir_name(), name)
    }

    /// The absolute location of the reference against store root `root`.
    pub fn get_absolute_path(&self, root: &str) -> (r: String)
        ensures
            r@ == absolute_of(root@, self@.path),
    {
        if crate::paths::str_is_absolute(self.path.as_str()) {
            self.path.clone()
        } else {
            join_path(root, self.path.as_str())
        }
    }
}

impl Clone for Asset {
    fn clone(&self) -> (r: Self)
        ensures
            r@ == self@,
    {
        Asset { path: self.path.clone(), enabled: self.enabled }
    }
}


/// A store-relative asset path `<dir>/<name>` splits back into its
/// category directory and name, for a plain name.
pub proof fn lemma_relative_path_split(kind: AssetKind, name: Seq<char>)
    requires
        !contains_char(name, '/'),
        name.len() > 0,
        name != seq!['.'],
        name != seq!['.', '.'],
    ensures
        parent_of(relative_asset_path(kind, name)) == kind.spec_dir_name(),
        basename_of(relative_asset_path(kind, name)) == name,
{
    lemma_dir_name_clean(kind);
    crate::paths::lemma_basename_of_joined(kind.spec_dir_name(), name);
    crate::paths::lemma_parent_of_joined(kind.spec_dir_name(), name);
}

/// How a reference is relocated into the managed store: the absolute
/// source, the category directory to create, the destination, and the
/// store-relative path to record once the file has been copied or moved.
pub struct RelocationPlan {
    pub source: String,
    pub dest_dir: String,
    pub dest: String,
    pub new_path: String,
}

impl Asset {
    /// The relocation of this reference into category `kind` of the
    /// store; `None` when its path has no basename to relocate under.
    pub fn relocation_plan(&self, kind: AssetKind, root: &crate::store::StoreRoot) -> (r: Option<
        RelocationPlan,
    >)
        ensures
            match r {
                Some(p) => {
                    &&& basename_of(self@.path).len() > 0
                    &&& parent_of(p.new_path@) == kind.spec_dir_name()
                    &&& p.source@ == absolute_of(root@, self@.path)
                    &&& p.dest_dir@ == joined(root@, kind.spec_dir_name())
                    &&& p.dest@ == joined(
                        joined(root@, kind.spec_dir_name()),
                        basename_of(self@.path),
                    )
                    &&& p.new_path@ == relative_asset_path(kind, basename_of(self@.path))
                },
                None => basename_of(self@.path).len() == 0,
            },
    {
        match self.get_filename() {
            None => None,
            Some(name) => {
                proof {
                    crate::paths::lemma_basename_clean(self@.path);
                    lemma_relative_path_split(kind, basename_of(self@.path));
                }
                let source = self.get_absolute_path(root.as_str());
                let dest_dir = root.category_dir(kind);
                let dest = join_path(dest_dir.as_str(), name.as_str());
                let new_path = Asset::get_relative_path(kind, name.as_str());
                Some(RelocationPlan { source, dest_dir, dest, new_path })
            },
        }
    }

    /// Records a completed relocation: the path becomes the plan's
    /// store-relative form; the enabled flag is untouched.
    pub fn apply_relocation(&mut self, plan: &RelocationPlan)
        ensures
            final(self)@.path == plan.new_path@,
            final(self)@.enabled == old(self)@.enabled,
    {
        self.path = plan.new_path.clone();
    }
}

} // verus!
