//! File suite utilities: verified array expressions, case folding helpers and
//! small pieces of logic shared by the command line tools.

pub mod array_expr;
pub mod case_fold_fs;
pub mod common;
pub mod log_level;
pub mod nested;
pub mod text;
pub mod tools;
