use vstd::prelude::*;

verus! {

/// One entry of the remote release catalog, in catalog order: a tagged
/// version (`v<major>.<minor>.<patch>...`), its date, and the files
/// published for it.
#[derive(Debug, Clone)]
pub struct NodeRelease {
    pub version: String,
    pub date: String,
    pub files: Vec<String>,
}

} // verus!
