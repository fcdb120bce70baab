//! Process exit status of one rename run.

use vstd::prelude::*;

verus! {

/// Outcome of a whole run: `Success` exits with status 0, `GeneralError`
/// (any fatal stage or a non-empty failure report) with status 1.
#[derive(Clone, Copy, Debug, PartialEq, Eq, Structural)]
pub enum ExitCode {
    Success,
    GeneralError,
}

impl From<ExitCode> for i32 {
    fn from(item: ExitCode) -> i32 {
        match item {
            ExitCode::Success => 0,
            ExitCode::GeneralError => 1,
        }
    }
}

impl vstd::std_specs::convert::FromSpecImpl<ExitCode> for i32 {
    open spec fn obeys_from_spec() -> bool {
        true
    }

    open spec fn from_spec(item: ExitCode) -> i32 {
        match item {
            ExitCode::Success => 0,
            ExitCode::GeneralError => 1,
        }
    }
}

} // verus!
