//! Fatal errors and the aggregated failure report.
//!
//! A run either fails fatally before any filesystem mutation (bad
//! configuration, invalid pattern, edited listing with the wrong line
//! count) or completes its batch and reports the per-item rename failures
//! it collected — all of them, merged into one report.

use vstd::prelude::*;

use crate::exit_codes::ExitCode;
use crate::listing::joined_with;

verus! {

/// A fatal error of one rename run.  Every variant is raised before any
/// filesystem mutation, except `RenameFailures`, which carries the merged
/// report of the per-item failures of an executed batch.
#[derive(Debug)]
pub enum RenameError {
    /// Replace-mode was requested without a pattern to replace.
    MissingPattern,
    /// The pattern text did not compile to a regular expression.
    InvalidPattern(String),
    /// The edited listing no longer has one line per original name.
    LineCountMismatch(usize, usize),
    /// At least one rename attempt failed; the report merges all of them.
    RenameFailures(String),
}

impl RenameError {
    /// The user-facing text of this error.
    pub fn message(&self) -> (r: String)
        ensures
            self matches RenameError::MissingPattern
                ==> r@ == "the pattern must if supplied if you are using the rename option"@,
            (forall|p: String| *self == RenameError::InvalidPattern(p)
                ==> r@ == "Failed to create regex with pattern `"@ + p@ + "`"@),
            self matches RenameError::LineCountMismatch(_, _)
                ==> r@ == "Do not delete or add lines from the file, only change them."@,
            (forall|m: String| *self == RenameError::RenameFailures(m) ==> r@ == m@),
    {
        match self {
            RenameError::MissingPattern => {
                "the pattern must if supplied if you are using the rename option".to_owned()
            },
            RenameError::InvalidPattern(p) => {
                let mut r = "Failed to create regex with pattern `".to_owned();
                r.append(p.as_str());
                r.append("`");
                r
            },
            RenameError::LineCountMismatch(_, _) => {
                "Do not delete or add lines from the file, only change them.".to_owned()
            },
            RenameError::RenameFailures(m) => m.clone(),
        }
    }
}

/// The delimiter between failures in the merged report.
pub open spec fn report_separator() -> Seq<char> {
    "\n\nError:\n"@
}

/// The merged report: a leading line break, then every failure, joined by
/// the delimiter.
pub open spec fn combined_report(failures: Seq<Seq<char>>) -> Seq<char> {
    "\n"@ + joined_with(failures, report_separator())
}

/// The context line recorded for one failed rename attempt.
pub fn rename_failure_message(from: &str, to: &str, cause: &str) -> (r: String)
    ensures
        r@ == "Failed to rename "@ + from@ + " to "@ + to@ + ": "@ + cause@,
{
    let mut r = "Failed to rename ".to_owned();
    r.append(from);
    r.append(" to ");
    r.append(to);
    r.append(": ");
    r.append(cause);
    r
}

/// Merges any number of failure texts into the single report.
pub fn anyhow_multiple(failures: &Vec<String>) -> (r: String)
    ensures
        r@ == combined_report(failures.deep_view()),
{
    let mut r = "\n".to_owned();
    let joined = crate::listing::join_with(failures, "\n\nError:\n");
    r.append(joined.as_str());
    r
}

/// The batch outcome: success exactly when no rename attempt failed,
/// otherwise one error carrying the merged report of every failure.
pub fn aggregate_failures(failures: &Vec<String>) -> (r: Result<(), RenameError>)
    ensures
        r is Ok <==> failures@.len() == 0,
        r matches Err(e) ==> (e matches RenameError::RenameFailures(m)
            && m@ == combined_report(failures.deep_view())),
{
    if failures.len() == 0 {
        Ok(())
    } else {
        Err(RenameError::RenameFailures(anyhow_multiple(failures)))
    }
}

/// The process exit status a run's outcome maps to: success exactly when
/// no stage failed.
pub fn run_exit_code(outcome: &Result<(), RenameError>) -> (r: ExitCode)
    ensures
        (r == ExitCode::Success) <==> outcome is Ok,
        (r == ExitCode::GeneralError) <==> outcome is Err,
{
    match outcome {
        Ok(_) => ExitCode::Success,
        Err(_) => ExitCode::GeneralError,
    }
}

/// Somewhere in the joined text, each item appears in full.
proof fn lemma_joined_with_contains(items: Seq<Seq<char>>, sep: Seq<char>, i: int)
    requires
        0 <= i < items.len(),
    ensures
        exists|k: int|
            0 <= k && k + items[i].len() <= joined_with(items, sep).len()
                && #[trigger] joined_with(items, sep).subrange(k, k + items[i].len()) == items[i],
    decreases items.len(),
{
    let j = joined_with(items, sep);
    let z: int = 0;
    if items.len() == 1 {
        assert(j.subrange(z, z + items[i].len()) =~= items[i]);
        assert(0 <= z && z + items[i].len() <= j.len()
            && j.subrange(z, z + items[i].len()) == items[i]);
    } else if i == 0 {
        assert(j.subrange(z, z + items[i].len()) =~= items[i]);
        assert(0 <= z && z + items[i].len() <= j.len()
            && j.subrange(z, z + items[i].len()) == items[i]);
    } else {
        let rest = items.drop_first();
        lemma_joined_with_contains(rest, sep, i - 1);
        let jr = joined_with(rest, sep);
        let k0 = choose|k0: int|
            0 <= k0 && k0 + rest[i - 1].len() <= jr.len()
                && #[trigger] jr.subrange(k0, k0 + rest[i - 1].len()) == rest[i - 1];
        let base = items[0].len() + sep.len();
        assert(rest[i - 1] == items[i]);
        let k = base + k0;
        assert(j.subrange(k, k + items[i].len()) =~= items[i]) by {
            assert forall|t: int| 0 <= t < items[i].len() implies j[k + t] == items[i][t] by {
                assert(j[k + t] == jr[k0 + t]);
                assert(jr.subrange(k0, k0 + rest[i - 1].len())[t] == jr[k0 + t]);
            }
        }
        assert(0 <= k && k + items[i].len() <= j.len()
            && j.subrange(k, k + items[i].len()) == items[i]);
    }
}

/// The merged report loses nothing: each collected failure text appears in
/// it in full.
pub proof fn lemma_report_contains_each_failure(failures: Seq<Seq<char>>, i: int)
    requires
        0 <= i < failures.len(),
    ensures
        exists|k: int|
            0 <= k && k + failures[i].len() <= combined_report(failures).len()
                && #[trigger] combined_report(failures).subrange(k, k + failures[i].len())
                    == failures[i],
{
    lemma_joined_with_contains(failures, report_separator(), i);
    let j = joined_with(failures, report_separator());
    let c = combined_report(failures);
    let lead = "\n"@.len() as int;
    let k0 = choose|k0: int|
        0 <= k0 && k0 + failures[i].len() <= j.len()
            && #[trigger] j.subrange(k0, k0 + failures[i].len()) == failures[i];
    let k = lead + k0;
    assert(c.subrange(k, k + failures[i].len()) =~= failures[i]) by {
        assert forall|t: int| 0 <= t < failures[i].len() implies c[k + t] == failures[i][t] by {
            assert(c[k + t] == j[k0 + t]);
            assert(j.subrange(k0, k0 + failures[i].len())[t] == j[k0 + t]);
        }
    }
    assert(0 <= k && k + failures[i].len() <= c.len()
        && c.subrange(k, k + failures[i].len()) == failures[i]);
}

} // verus!
