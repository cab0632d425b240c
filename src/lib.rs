//! Counts the lines of source files by language: which files to count
//! (`valid`), what language a file is and how many lines it has (`count`),
//! the totals per language and their order (`aggregate`), and the two
//! reports (`display`, `full`).

use vstd::prelude::*;

pub mod aggregate;
pub mod config;
pub mod consts;
pub mod count;
pub mod display;
pub mod full;
pub mod layout;
pub mod path;
pub mod regfile;
pub mod registry;
pub mod sort;
pub mod text;
pub mod types;
pub mod valid;
