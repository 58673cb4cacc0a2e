//! A filesystem-manifest library: it walks a snapshot of a directory tree and
//! produces a normalized, ordered list of entries (files, directories,
//! symlinks) suitable for archival, under one of several symlink policies.

pub mod filter;
pub mod fstree;
pub mod laws;
pub mod manifest;

pub use filter::run;
pub use filter::Filter;
pub use filter::SymlinkFilter;
pub use filter::SymlinkFollowFilter;
