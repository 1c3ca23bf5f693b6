//! Verified core of `maram`, a tool that manages sets of git worktrees
//! (a base branch plus variant branches) and their Zellij sessions.

pub mod error;
pub mod text;
pub mod naming;
pub mod path;
pub mod path_map;
pub mod metadata;
pub mod worktree_set;
pub mod zellij;
pub mod git;
pub mod config;
pub mod commands;
pub mod cli;
