use vstd::prelude::*;

verus! {

/// Base URL of the release-archive download area.
pub const NODEJS_API_BASE: &'static str = "https://nodejs.org/dist";

/// URL of the remote release catalog, a JSON array ordered newest-first.
pub const NODEJS_API_INDEX: &'static str = "https://nodejs.org/dist/index.json";

/// Name of the directory under the base that holds one directory per
/// installed version.
pub const VERSION_DIR: &'static str = "versions";

/// Name of the single activation pointer under the base.
pub const NODEJS_DIR: &'static str = "nodejs";

} // verus!
