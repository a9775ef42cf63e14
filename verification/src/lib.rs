//! Composition of a single gitignore file from named ignore-pattern
//! templates: path normalization of recursive wildcards, per-line rewriting
//! of template bodies under a prefix path, fuzzy matching of requested names
//! against the catalog, and the composer that concatenates the formatted
//! blocks in request order.
//!
//! Fetching the catalog and template bodies, the terminal, and persistence
//! are outside collaborators: the composer hands that work out as actions
//! and is fed the results back.

mod catalog;
mod chars;
mod compose;
mod formatter;
mod fuzzy;
mod paths;
mod rows;
mod text;

pub use catalog::{build_file_map, destructure_to_tup, Catalog, FileRes};
pub use compose::{split_request, ComposeAction, Composer, Pending};
pub use formatter::format_gitignore;
pub use fuzzy::{best_match, confirmation_prompt, is_affirmative, suggest_most_similar};
pub use paths::reduce_globstars;
pub use rows::{sorted_keys, template_rows};
