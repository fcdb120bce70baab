//! Verified core of a bulk file renamer.
//!
//! The library models one rename transaction over a directory snapshot:
//! entries are normalized and ordered deterministically, optionally filtered
//! by a regular expression, presented as an editable line listing, paired
//! positionally with edited or mechanically replaced target names, validated,
//! and turned into the exact set of rename operations to attempt.  Every
//! stage is a function on plain values with a proved contract; the thin shell
//! that touches the filesystem and the user's editor lives outside.

pub mod editor_rename;
pub mod entries;
pub mod errors;
pub mod exit_codes;
pub mod lex;
pub mod listing;
pub mod matcher;
pub mod opt;
pub mod planner;
pub mod replace_rename;

pub use exit_codes::ExitCode;
