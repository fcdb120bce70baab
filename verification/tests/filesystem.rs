use bulkrename::entries::{
    add_dir_slash, convert_paths_to_string_iter, get_sorted_paths, get_string_paths, remove_front,
    DirEntry,
};

fn testing_strs() -> Vec<&'static str> {
    vec!["file1", "file2", "file3", "file4", "file5", "hello_dude"]
}

fn testing_strs_dot() -> Vec<&'static str> {
    vec![
        "./file1",
        "./file2",
        "./file3",
        "./file4",
        "./file5",
        "./hello_dude",
    ]
}

fn testing_entries_from_strs(paths: Vec<&str>) -> Vec<DirEntry> {
    paths
        .iter()
        .map(|p| DirEntry {
            path: String::from(*p),
            is_dir: false,
        })
        .collect()
}

#[test]
fn remove_front_test() {
    assert_eq!(remove_front(String::from("./intersting")), "intersting");
}

#[test]
fn remove_front_test_no_dot() {
    assert_eq!(remove_front(String::from("wow")), "wow");
}

#[test]
fn remove_front_test_wrong_place() {
    assert_eq!(remove_front(String::from("wrong./place")), "wrong./place");
}

#[test]
fn remove_front_test_end() {
    assert_eq!(remove_front(String::from("attheend./")), "attheend./");
}

#[test]
fn convert_test() {
    let paths = testing_entries_from_strs(testing_strs_dot());
    let items = convert_paths_to_string_iter(&paths, false);

    assert_eq!(items, testing_strs());
}

#[test]
fn add_dir_slash_test() {
    assert_eq!(add_dir_slash(String::from("dir")), "dir/");
}

#[test]
fn directory_entries_get_trailing_slash() {
    let entries = vec![
        DirEntry {
            path: String::from("./docs"),
            is_dir: true,
        },
        DirEntry {
            path: String::from("./notes.txt"),
            is_dir: false,
        },
    ];
    let names = get_string_paths(entries, false);
    assert_eq!(names, vec!["docs/", "notes.txt"]);
}

#[test]
fn sorted_paths_are_ordered_by_raw_path() {
    let entries = testing_entries_from_strs(vec!["./b", "./a", "./c"]);
    let sorted = get_sorted_paths(entries);
    let paths: Vec<&str> = sorted.iter().map(|e| e.path.as_str()).collect();
    assert_eq!(paths, vec!["./a", "./b", "./c"]);
}

#[test]
fn enumeration_is_deterministic_across_input_orders() {
    let forward = testing_entries_from_strs(testing_strs_dot());
    let mut reversed_strs = testing_strs_dot();
    reversed_strs.reverse();
    let backward = testing_entries_from_strs(reversed_strs);

    let first = get_string_paths(forward, false);
    let second = get_string_paths(backward, false);
    assert_eq!(first, second);
    assert_eq!(first, testing_strs());
}

#[test]
fn hidden_entries_are_excluded_by_default() {
    let entries = testing_entries_from_strs(vec!["./.secret", "./shown"]);
    let names = get_string_paths(entries, false);
    assert_eq!(names, vec!["shown"]);
}

#[test]
fn hidden_entries_are_kept_when_asked() {
    let entries = testing_entries_from_strs(vec!["./.secret", "./shown"]);
    let names = get_string_paths(entries, true);
    assert_eq!(names, vec![".secret", "shown"]);
}
