//! A read-only filesystem bridge over a hosted repository tree.

pub mod attr;
pub mod content;
pub mod dir_cache;
pub mod error;
pub mod fs;
pub mod inode_table;
pub mod kind;
pub mod options;
pub mod pending;
pub mod provider;
pub mod text;
