//! An in-memory hierarchical file store.
//!
//! The engine owns the directory tree, the inode attribute table, the
//! open-handle table and the raw byte content of regular files, and answers
//! lookup, attribute, read, write and directory-listing requests. A kernel
//! filesystem adapter sits outside the library and translates protocol
//! requests into calls on [`fs::NsFS`].

pub mod attr;
pub mod content;
pub mod error;
pub mod fs;
pub mod laws;
pub mod node;
pub mod table;
