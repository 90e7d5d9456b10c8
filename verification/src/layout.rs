use vstd::prelude::*;
use vstd::string::StringExecFns;

use crate::constants::{NODEJS_DIR, VERSION_DIR};

verus! {

/// The on-disk layout: everything lives under one base directory, with one
/// directory per installed version under `versions/` and a single
/// activation pointer beside it.
#[derive(Debug)]
pub struct NveLayout {
    pub base: String,
}

impl NveLayout {
    /// The directory that holds one directory per installed version.
    pub fn versions_dir(&self) -> (r: String)
        ensures
            r@ == self.base@ + "/"@ + VERSION_DIR@,
    {
        self.base.clone().concat("/").concat(VERSION_DIR)
    }

    /// The activation pointer's path.
    pub fn current_dir(&self) -> (r: String)
        ensures
            r@ == self.base@ + "/"@ + NODEJS_DIR@,
    {
        self.base.clone().concat("/").concat(NODEJS_DIR)
    }

    /// The directory of one installed version.
    pub fn version_dir(&self, v: &str) -> (r: String)
        ensures
            r@ == self.base@ + "/"@ + VERSION_DIR@ + "/"@ + v@,
    {
        self.versions_dir().concat("/").concat(v)
    }
}

} // verus!
