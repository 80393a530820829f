//! Verified core of the qipi package manager: package-spec parsing, the
//! tarball cache layout, the symlink layout of `node_modules`, and the
//! lockfile store.

pub mod text;
pub mod package;
pub mod entry;
pub mod version;
pub mod disk;
pub mod cache;
pub mod config;
pub mod link;
pub mod lockfile;
pub mod cli;
