//! Errors that the library's decisions can end in.

use vstd::prelude::*;

verus! {

/// Why a command of `maram` stops.
#[derive(Debug, PartialEq, Eq)]
pub enum MaramError {
    /// A list to choose from is empty.
    NoItems,
    /// The repository has no worktree set.
    NoWorktreeSets { repo_name: String },
    /// A worktree set of that name exists already.
    WorktreeSetExists { name: String },
    /// A branch of that name exists already.
    BranchExists { branch: String },
    /// The base branch exists already and is not to be used as the base.
    BaseBranchExists { branch: String },
    /// The directory for a new worktree set exists and holds something.
    DirectoryNotEmpty { path: String },
    /// The worktree set has no variant of that name.
    UnknownVariant { name: String },
    /// The worktree set has a variant of that name already.
    VariantExists { name: String },
    /// The metadata records no worktree path for that variant.
    VariantPathNotFound { name: String },
    /// No branch to sync with was given and none is recorded.
    NoParentBranch,
    /// The current directory is not inside the directory of worktree sets.
    NotInWorktreeSet,
    /// The search for metadata went past the root.
    ReachedRoot,
    /// No directory between the current one and the directory of worktree sets holds metadata.
    MetadataNotFound,
    /// The recorded base commit is not a commit id.
    InvalidBaseCommit,
    /// The command must run in the base worktree.
    NotInBaseWorktree,
    /// The home directory is unknown.
    NoHomeDir,
    /// The configuration directory is unknown.
    NoConfigDir,
}

} // verus!
