//! A case folded bind mount: the file types, errors and decisions of its file system.

pub mod attr;
pub mod error;
pub mod file_type;
pub mod fold;
pub mod ops;
