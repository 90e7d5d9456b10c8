//! A Node.js version manager's core, verified: partial version selectors
//! and their matching semantics, resolution against the remote release
//! catalog, install planning, archive-extraction normalization, and the
//! activation state machine.  The surrounding application performs the
//! network and filesystem work these modules plan and decide.

pub mod constants;
pub mod text;
pub mod semver;
pub mod version;
pub mod commands;
pub mod release;
pub mod layout;
pub mod resolver;
pub mod installer;
pub mod extract;
pub mod archive;
pub mod platform;
pub mod error;
