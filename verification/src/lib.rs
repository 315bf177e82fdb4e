//! Verified core of a Git hook manager: hook definitions are stored as
//! ordered command lists, rendered into executable shell scripts, and
//! installed into a repository's hook directory. All decision logic lives
//! here with contracts; filesystem access stays with the caller.

pub mod apply;
pub mod codec;
pub mod command;
pub mod config;
pub mod error;
pub mod generator;
pub mod hook;
pub mod listing;
pub mod storage;
pub mod text;
