//! One-line summaries of a version-controlled working directory.
//!
//! The crate turns the text that the version-control backend prints for a
//! repository into a single status line: a fixed-width label made from the
//! directory name, followed by the signals that have something to say, in a
//! fixed order.  All of the text handling is verified; running the backend and
//! printing belong to the surrounding binary.

use vstd::prelude::*;

mod aggregate;
mod cli;
mod lines;
mod signals;
mod text;

pub use crate::cli::branches;
pub use crate::cli::is_git_repo;
pub use crate::cli::version_line;
pub use crate::cli::wants_version;

pub use crate::aggregate::aggregate;
pub use crate::aggregate::branchstat;
pub use crate::aggregate::file_label;
pub use crate::aggregate::pad_label;

pub use crate::lines::split_lines;
pub use crate::signals::ahead_behind;
pub use crate::signals::modified;
pub use crate::signals::status;
pub use crate::signals::untracked;

pub use crate::text::clean_line;
pub use crate::text::count_string;
pub use crate::text::join_strings;
pub use crate::text::leading_token;

verus! {

} // verus!
