//! The front end's command-line arguments, as settings resolution reads them.

use vstd::prelude::*;

verus! {

/// Command-line arguments.
#[derive(Debug, Clone, PartialEq, Eq)]
pub struct CliArgs {
    /// Attach to this pid on startup.
    pub pid: Option<u32>,
    /// Path to a `config.toml`, instead of the conventional one.
    pub config: Option<String>,
    /// Path to a `theme.toml`, instead of the conventional one.
    pub theme: Option<String>,
}

} // verus!
