use bulkrename::listing::{join_lines, split_lines};

#[test]
fn join_empty_listing_is_empty() {
    let items: Vec<String> = vec![];
    assert_eq!(join_lines(&items), "");
}

#[test]
fn join_single_name_has_no_newline() {
    let items = vec![String::from("only")];
    assert_eq!(join_lines(&items), "only");
}

#[test]
fn join_separates_names_with_newlines() {
    let items = vec![
        String::from("a.txt"),
        String::from("b.txt"),
        String::from("c.txt"),
    ];
    assert_eq!(join_lines(&items), "a.txt\nb.txt\nc.txt");
}

#[test]
fn split_inverts_join() {
    let items = vec![String::from("a.txt"), String::from("b.txt")];
    let text = join_lines(&items);
    assert_eq!(split_lines(&text), items);
}

#[test]
fn split_empty_text_has_no_lines() {
    let lines = split_lines("");
    assert!(lines.is_empty());
}

#[test]
fn split_tolerates_a_trailing_newline() {
    assert_eq!(split_lines("a\nb\n"), vec!["a", "b"]);
}

#[test]
fn split_chomps_carriage_returns() {
    assert_eq!(split_lines("a\r\nb\r\n"), vec!["a", "b"]);
}

#[test]
fn split_keeps_interior_empty_lines() {
    assert_eq!(split_lines("a\n\nb"), vec!["a", "", "b"]);
}
