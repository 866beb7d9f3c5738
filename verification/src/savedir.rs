//! The saves area of the managed store.

use vstd::prelude::*;
use vstd::string::*;

use crate::paths::joined;
use crate::store::StoreRoot;

verus! {

pub struct Savedir;

impl Savedir {
    /// The name of the saves subdirectory.
    pub fn get_dir_name() -> (r: &'static str)
        ensures
            r@ == "saves"@,
    {
        "saves"
    }

    /// The absolute saves directory under the store root.
    pub fn get(root: &StoreRoot) -> (r: String)
        ensures
            r@ == joined(root@, "saves"@),
    {
        root.full_directory(Savedir::get_dir_name())
    }
}

} // verus!
