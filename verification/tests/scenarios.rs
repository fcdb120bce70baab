//! End-to-end runs over a simulated directory: the library plans, a tiny
//! in-memory filesystem stands in for the executor, and the aggregated
//! outcome decides the exit status.

use bulkrename::editor_rename::{plan_from_edited, prepare_listing};
use bulkrename::entries::DirEntry;
use bulkrename::errors::{aggregate_failures, rename_failure_message, run_exit_code, RenameError};
use bulkrename::exit_codes::ExitCode;
use bulkrename::opt::{resolve_mode, Mode};
use bulkrename::planner::pairs_to_execute;
use bulkrename::replace_rename::ReplaceRename;

fn snapshot(names: Vec<&str>) -> Vec<DirEntry> {
    names
        .iter()
        .map(|n| DirEntry {
            path: format!("./{}", n),
            is_dir: false,
        })
        .collect()
}

/// A stand-in filesystem: renames succeed unless the target name is
/// already taken, and every attempt is recorded.
struct FakeFs {
    names: Vec<String>,
    attempts: Vec<(String, String)>,
}

impl FakeFs {
    fn new(names: Vec<&str>) -> Self {
        FakeFs {
            names: names.iter().map(|n| String::from(*n)).collect(),
            attempts: vec![],
        }
    }

    fn run(&mut self, pairs: Vec<(String, String)>) -> Vec<String> {
        let mut failures = vec![];
        for (from, to) in pairs {
            self.attempts.push((from.clone(), to.clone()));
            if self.names.contains(&to) {
                failures.push(rename_failure_message(&from, &to, "destination already exists"));
            } else if let Some(slot) = self.names.iter_mut().find(|n| **n == from) {
                *slot = to;
            } else {
                failures.push(rename_failure_message(&from, &to, "source vanished"));
            }
        }
        failures
    }
}

#[test]
fn scenario_replace_renames_only_the_match() {
    // directory a.txt, b.txt; pattern `a`; replacement `x`
    let mode = resolve_mode(Some(String::from("a")), Some(String::from("x"))).unwrap();
    let (pattern, replacement) = match mode {
        Mode::ReplaceMode(p, r) => (p, r),
        Mode::EditorMode(_) => panic!("replace-mode expected"),
    };
    let (names, _listing) = prepare_listing(snapshot(vec!["a.txt", "b.txt"]), false, None).unwrap();
    let rr = ReplaceRename::new(names, &pattern, replacement).unwrap();
    let replaced = rr.replace();
    let mapping = rr.rename_using_replace(&replaced).unwrap();

    let mut fs = FakeFs::new(vec!["a.txt", "b.txt"]);
    let failures = fs.run(pairs_to_execute(&mapping));
    let outcome = aggregate_failures(&failures);

    assert_eq!(fs.attempts, vec![(String::from("a.txt"), String::from("x.txt"))]);
    assert_eq!(fs.names, vec!["x.txt", "b.txt"]);
    assert_eq!(i32::from(run_exit_code(&outcome)), 0);
}

#[test]
fn scenario_deleted_line_aborts_with_directory_unchanged() {
    // directory f1, f2, f3; the edited listing lost a line
    let (names, listing) = prepare_listing(snapshot(vec!["f1", "f2", "f3"]), false, None).unwrap();
    assert_eq!(listing, "f1\nf2\nf3");

    let edited = "f1\nf2";
    let mut fs = FakeFs::new(vec!["f1", "f2", "f3"]);
    let outcome = match plan_from_edited(&names, edited) {
        Ok(mapping) => aggregate_failures(&fs.run(pairs_to_execute(&mapping))),
        Err(e) => Err(e),
    };

    assert!(matches!(outcome, Err(RenameError::LineCountMismatch(3, 2))));
    assert_eq!(fs.attempts.len(), 0);
    assert_eq!(fs.names, vec!["f1", "f2", "f3"]);
    assert_eq!(run_exit_code(&outcome), ExitCode::GeneralError);
}

#[test]
fn scenario_collision_is_reported_while_other_pairs_proceed() {
    // f1 wants f2's name, which an untouched file still holds; f3's rename
    // is unrelated and must still happen
    let (names, _listing) = prepare_listing(snapshot(vec!["f1", "f2", "f3"]), false, None).unwrap();
    let edited = "f2\nf2\ng3";
    let mapping = plan_from_edited(&names, edited).unwrap();

    let mut fs = FakeFs::new(vec!["f1", "f2", "f3"]);
    let failures = fs.run(pairs_to_execute(&mapping));
    let outcome = aggregate_failures(&failures);

    // the unrelated rename took effect
    assert!(fs.names.contains(&String::from("g3")));
    // the colliding pair is reported, in full, in the merged message
    let report = outcome.unwrap_err().message();
    assert!(report.contains("Failed to rename f1 to f2: destination already exists"));
    assert!(!report.contains("g3"));
}

#[test]
fn scenario_editor_flow_with_pattern_filters_the_listing() {
    let entries = snapshot(vec!["note.md", "a.txt", "b.txt"]);
    let (names, listing) = prepare_listing(entries, false, Some("txt")).unwrap();
    assert_eq!(names, vec!["a.txt", "b.txt"]);
    assert_eq!(listing, "a.txt\nb.txt");
}

#[test]
fn replace_mode_without_pattern_is_a_configuration_error() {
    let err = resolve_mode(None, Some(String::from("x"))).unwrap_err();
    assert!(matches!(err, RenameError::MissingPattern));
}

#[test]
fn editor_mode_keeps_the_optional_pattern() {
    let mode = resolve_mode(Some(String::from("pat")), None).unwrap();
    assert!(matches!(mode, Mode::EditorMode(Some(p)) if p == "pat"));
    let mode = resolve_mode(None, None).unwrap();
    assert!(matches!(mode, Mode::EditorMode(None)));
}
