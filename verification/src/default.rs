//! What is taken where nothing else is given.

use vstd::prelude::*;

verus! {

/// The name of the manifest file that is looked for in the current directory.
pub const DEFAULT_MANIFEST_FILE_NAME: &'static str = "repo-plan.toml";

/// The address that commits are made under.
pub const DEFAULT_COMMIT_AUTHOR_EMAIL: &'static str = "releasy@fuel.sh";

/// The name that commits are made under.
pub const DEFAULT_COMMIT_AUTHOR_NAME: &'static str = "releasy";

} // verus!
