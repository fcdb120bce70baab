use bulkrename::errors::{
    aggregate_failures, anyhow_multiple, rename_failure_message, run_exit_code, RenameError,
};
use bulkrename::exit_codes::ExitCode;

#[test]
fn no_failures_is_success() {
    let outcome = aggregate_failures(&vec![]);
    assert!(outcome.is_ok());
    assert_eq!(run_exit_code(&outcome), ExitCode::Success);
    assert_eq!(i32::from(run_exit_code(&outcome)), 0);
}

#[test]
fn failures_merge_into_one_report() {
    let failures = vec![String::from("first cause"), String::from("second cause")];
    let outcome = aggregate_failures(&failures);
    let err = outcome.unwrap_err();
    let report = err.message();
    assert!(report.contains("first cause"));
    assert!(report.contains("second cause"));
}

#[test]
fn report_joins_failures_with_the_delimiter() {
    let failures = vec![String::from("one"), String::from("two")];
    assert_eq!(anyhow_multiple(&failures), "\none\n\nError:\ntwo");
}

#[test]
fn report_of_a_single_failure_has_no_delimiter() {
    let failures = vec![String::from("lonely")];
    assert_eq!(anyhow_multiple(&failures), "\nlonely");
}

#[test]
fn failure_outcome_exits_nonzero() {
    let outcome = aggregate_failures(&vec![String::from("cause")]);
    assert_eq!(run_exit_code(&outcome), ExitCode::GeneralError);
    assert_eq!(i32::from(run_exit_code(&outcome)), 1);
}

#[test]
fn failure_context_names_the_pair() {
    let msg = rename_failure_message("old.txt", "new.txt", "permission denied");
    assert_eq!(msg, "Failed to rename old.txt to new.txt: permission denied");
}

#[test]
fn missing_pattern_message() {
    let err = RenameError::MissingPattern;
    assert_eq!(
        err.message(),
        "the pattern must if supplied if you are using the rename option"
    );
}

#[test]
fn exit_codes_convert_to_process_statuses() {
    assert_eq!(i32::from(ExitCode::Success), 0);
    assert_eq!(i32::from(ExitCode::GeneralError), 1);
}
