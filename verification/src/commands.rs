//! The commands of maram, as the command line gives them.

use vstd::prelude::*;

verus! {

/// A command of maram with its arguments.
#[derive(Debug)]
pub enum Commands {
    /// Create a new worktree set.
    Create { branch_name: Option<String>, no_session: bool, variants: Option<Vec<String>> },
    /// Check out (switch to) a worktree set.
    Checkout { branch_name: Option<String>, no_session: bool },
    /// Delete a worktree set.
    Delete { branch_name: Option<String> },
    /// Show the status of the current worktree set.
    Status,
    /// List the worktree sets of the repository.
    List,
    /// Pick a variant into the base branch.
    Pick { variant_name: Option<String> },
    /// Reset the base branch to its state before any pick.
    Reset,
    /// Diff two variants (the second defaults to the base).
    Diff { variant1: String, variant2: Option<String> },
    /// Add a variant to the current worktree set.
    Add { variant_name: Option<String> },
    /// Remove a variant from the current worktree set.
    Remove { variant_name: Option<String> },
    /// Rebase the branches of the current worktree set onto a branch.
    Sync { branch: Option<String> },
}

/// The parsed command line.
#[derive(Debug)]
pub struct Cli {
    pub command: Commands,
}

} // verus!
