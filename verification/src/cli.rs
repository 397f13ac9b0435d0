//! The command surface, as plain data: what a run is asked to do.  The
//! argument parsing itself lives outside and fills these in.

use vstd::prelude::*;

verus! {

/// Options of the README-fetching run.
#[derive(Debug, Clone, Copy, PartialEq, Eq, Structural)]
pub struct ReadmeGetArgs {
    /// Process the manifest from the top down instead of bottom up.
    pub top_down: bool,
    /// Refetch URLs whose README was already downloaded.
    pub refresh: bool,
}

/// The subcommands the tool offers.
#[derive(Debug, Clone, Copy, PartialEq, Eq, Structural)]
pub enum Commands {
    ReadmeGet(ReadmeGetArgs),
}

} // verus!
