//! Project templates kept in a directory tree: files named `[<page>]<name>`
//! are found by page, the tree is listed, and `{{KEY}}` placeholders are
//! filled from a project's `var` file of `KEY = VALUE` lines.

pub mod bindings;
pub mod config;
pub mod error;
pub mod opts;
pub mod resolve;
pub mod setup;
pub mod substitute;
pub mod tag;
pub mod text;
pub mod tree;
