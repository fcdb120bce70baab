use bulkrename::editor_rename::plan_from_edited;
use bulkrename::errors::RenameError;
use bulkrename::planner::{pairs_to_execute, plan_renames};

fn strings(items: Vec<&str>) -> Vec<String> {
    items.iter().map(|s| String::from(*s)).collect()
}

/// A stand-in for the filesystem executor: it records every pair it is
/// handed, so a test can assert that none reached it.
struct RecordingExecutor {
    calls: Vec<(String, String)>,
}

impl RecordingExecutor {
    fn new() -> Self {
        RecordingExecutor { calls: vec![] }
    }

    fn run(&mut self, pairs: Vec<(String, String)>) {
        for pair in pairs {
            self.calls.push(pair);
        }
    }
}

#[test]
fn length_mismatch_fails_with_no_rename_calls() {
    let originals = strings(vec!["f1", "f2", "f3"]);
    let targets = strings(vec!["f1", "f2"]);
    let mut executor = RecordingExecutor::new();

    match plan_renames(&originals, &targets) {
        Err(RenameError::LineCountMismatch(expected, actual)) => {
            assert_eq!(expected, 3);
            assert_eq!(actual, 2);
        }
        other => panic!("expected a line-count mismatch, got {:?}", other.map(|_| ())),
    }
    // nothing was planned, so nothing can be executed
    assert_eq!(executor.calls.len(), 0);
    executor.run(vec![]);
    assert_eq!(executor.calls.len(), 0);
}

#[test]
fn length_mismatch_message_matches_the_editor_hint() {
    let originals = strings(vec!["f1", "f2"]);
    let targets = strings(vec!["f1"]);
    let err = plan_renames(&originals, &targets).unwrap_err();
    assert_eq!(
        err.message(),
        "Do not delete or add lines from the file, only change them."
    );
}

#[test]
fn pointwise_equal_mapping_executes_nothing() {
    let originals = strings(vec!["a", "b", "c"]);
    let targets = strings(vec!["a", "b", "c"]);
    let mapping = plan_renames(&originals, &targets).unwrap();
    let mut executor = RecordingExecutor::new();
    executor.run(pairs_to_execute(&mapping));
    assert_eq!(executor.calls.len(), 0);
}

#[test]
fn only_changed_pairs_are_executed() {
    let originals = strings(vec!["a", "b", "c"]);
    let targets = strings(vec!["a", "x", "c"]);
    let mapping = plan_renames(&originals, &targets).unwrap();
    let work = pairs_to_execute(&mapping);
    assert_eq!(work, vec![(String::from("b"), String::from("x"))]);
}

#[test]
fn mapping_keeps_every_pair_in_order() {
    let originals = strings(vec!["a", "b"]);
    let targets = strings(vec!["x", "b"]);
    let mapping = plan_renames(&originals, &targets).unwrap();
    assert_eq!(
        mapping.pairs,
        vec![
            (String::from("a"), String::from("x")),
            (String::from("b"), String::from("b")),
        ]
    );
}

#[test]
fn edited_text_with_deleted_line_is_rejected() {
    let originals = strings(vec!["f1", "f2", "f3"]);
    let err = plan_from_edited(&originals, "f1\nf2").unwrap_err();
    assert!(matches!(err, RenameError::LineCountMismatch(3, 2)));
}

#[test]
fn edited_text_pairs_lines_with_originals() {
    let originals = strings(vec!["f1", "f2"]);
    let mapping = plan_from_edited(&originals, "g1\nf2\n").unwrap();
    assert_eq!(
        mapping.pairs,
        vec![
            (String::from("f1"), String::from("g1")),
            (String::from("f2"), String::from("f2")),
        ]
    );
}
