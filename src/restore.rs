//! Restoring GPU memory from a BAR-sliding checkpoint.
use vstd::prelude::*;

pub mod bar_restore;

pub use bar_restore::{BarRestore, RestoreMetadata};

verus! {

/// Where restored checkpoints are looked for.
pub struct RestoreEngine {
    storage_path: String,
}

impl RestoreEngine {
    pub fn new(storage_path: String) -> (r: Self)
        ensures
            r.spec_storage_path() == storage_path@,
    {
        RestoreEngine { storage_path }
    }

    pub closed spec fn spec_storage_path(&self) -> Seq<char> {
        self.storage_path@
    }

    /// The directory checkpoints are stored in.
    pub fn storage_path(&self) -> (r: &String)
        ensures
            r@ == self.spec_storage_path(),
    {
        &self.storage_path
    }
}

} // verus!
