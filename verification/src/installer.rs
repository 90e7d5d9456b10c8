use vstd::prelude::*;
use vstd::string::StringExecFns;

use crate::constants::{NODEJS_API_BASE, VERSION_DIR};
use crate::layout::NveLayout;

verus! {

/// What one install invocation has to do after resolution: nothing at all,
/// or fetch one archive and extract it into the version directory.
#[derive(Debug)]
pub enum InstallStep {
    AlreadyInstalled,
    Download { url: String },
}

/// Decides what an install of a resolved version must do; the surrounding
/// application performs the fetch and the writes it asks for.
#[derive(Debug)]
pub struct InstallService {
    pub layout: NveLayout,
}

impl InstallService {
    /// Where the resolved version lives once installed: its existence is
    /// what makes a second install of it do nothing.
    pub fn version_dir_for(&self, exact: &str) -> (r: String)
        ensures
            r@ == self.layout.base@ + "/"@ + VERSION_DIR@ + "/"@ + exact@,
    {
        self.layout.version_dir(exact)
    }

    /// The URL of a release archive: the fixed base, the tagged exact
    /// version, and the platform's archive file name.
    pub fn download_url(exact: &str, archive_name: &str) -> (r: String)
        ensures
            r@ == NODEJS_API_BASE@ + "/v"@ + exact@ + "/"@ + archive_name@,
    {
        String::from_str(NODEJS_API_BASE).concat("/v").concat(exact).concat("/").concat(
            archive_name,
        )
    }

    /// The one install decision.  A version whose directory already exists
    /// asks for no download and no extraction — installing it again does
    /// nothing; a missing one asks for exactly the archive at its URL.
    pub fn install_step(&self, exact: &str, archive_name: &str, already_installed: bool) -> (s:
        InstallStep)
        ensures
            already_installed ==> s is AlreadyInstalled,
            !already_installed ==> (s matches InstallStep::Download { url } && url@
                == NODEJS_API_BASE@ + "/v"@ + exact@ + "/"@ + archive_name@),
    {
        if already_installed {
            InstallStep::AlreadyInstalled
        } else {
            InstallStep::Download { url: Self::download_url(exact, archive_name) }
        }
    }
}

} // verus!
