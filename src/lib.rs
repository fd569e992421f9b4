//! A small shell over an in-memory virtual file system.
//!
//! The tree mirrors a directory listing taken once; commands are parsed from
//! text lines and turned into effects that act on the tree or on a display.

pub mod session;
pub mod shell;
pub mod storage;
pub mod text;
