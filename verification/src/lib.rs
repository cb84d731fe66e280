//! Core of a read-only FUSE-style filesystem that mirrors a remote HTTP
//! directory index: the inode table, lazy directory population, path
//! reconstruction, directory-handle snapshots, and the translation of
//! kernel operations into remote requests and errno results.

pub mod config;
pub mod errno;
pub mod fs;
pub mod handles;
pub mod laws;
pub mod table;
pub mod remote;
pub mod text;
