//! Run configuration and mode selection.
//!
//! Which workflow a run uses is decided once, up front, from which
//! optional arguments are present: a replacement selects replace-mode
//! (and then a pattern is mandatory), otherwise the interactive editor
//! workflow runs, with the pattern — if any — only filtering the listing.

use vstd::prelude::*;

use crate::errors::RenameError;

verus! {

/// The options of one run, as plain values.
pub struct Opt {
    /// Keep entries whose name starts with a dot in the listing.
    pub hidden: bool,
    /// Walk directories recursively (accepted, but outside the core's
    /// scope: enumeration stays one level deep).
    pub recursive: bool,
    /// Report errors with more detail.
    pub debug: bool,
    /// The pattern to search for.
    pub pattern: Option<String>,
    /// What to rename a pattern match to; selects replace-mode.
    pub rename: Option<String>,
    /// Run in this directory instead of the current one.
    pub directory: Option<String>,
}

/// The workflow of one run, resolved once at startup.
#[derive(Debug)]
pub enum Mode {
    /// Present the (optionally filtered) listing in an editor.
    EditorMode(Option<String>),
    /// Replace every match of the pattern with the replacement.
    ReplaceMode(String, String),
}

/// Decides the workflow from the two optional arguments: a replacement
/// without a pattern is a configuration error, raised before any I/O; a
/// replacement with a pattern selects replace-mode; no replacement
/// selects editor-mode, the pattern only filtering.
pub fn resolve_mode(pattern: Option<String>, rename: Option<String>) -> (r: Result<
    Mode,
    RenameError,
>)
    ensures
        r is Err <==> (rename is Some && pattern is None),
        r matches Err(e) ==> e matches RenameError::MissingPattern,
        rename is None ==> (r matches Ok(m) && m matches Mode::EditorMode(p) && p == pattern),
        rename matches Some(rep) ==> (pattern matches Some(pat) ==> (r matches Ok(m)
            && m matches Mode::ReplaceMode(p2, r2) && p2 == pat && r2 == rep)),
{
    match rename {
        None => Ok(Mode::EditorMode(pattern)),
        Some(rep) => match pattern {
            None => Err(RenameError::MissingPattern),
            Some(pat) => Ok(Mode::ReplaceMode(pat, rep)),
        },
    }
}

} // verus!
