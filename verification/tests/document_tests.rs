use hecto::Document;
use hecto::Type;
use hecto::Position;
use hecto::SearchDirection;

fn doc(lines: &[&str]) -> Document {
    let lines: Vec<String> = lines.iter().map(|s| s.to_string()).collect();
    Document::from_lines(None, &lines)
}

fn line_text(d: &Document, y: usize) -> String {
    d.row(y).expect("line missing").text()
}

#[test]
fn from_lines_builds_rows() {
    let d = doc(&["foo", "bar"]);
    assert_eq!(d.len(), 2);
    assert!(!d.is_empty());
    assert!(!d.is_dirty());
    assert_eq!(line_text(&d, 0), "foo");
    assert_eq!(line_text(&d, 1), "bar");
    assert!(d.row(2).is_none());
}

#[test]
fn empty_document_has_no_rows() {
    let d = doc(&[]);
    assert_eq!(d.len(), 0);
    assert!(d.is_empty());
}

#[test]
fn insert_into_line_sets_dirty() {
    let mut d = doc(&["fo"]);
    d.insert(&Position { x: 2, y: 0 }, 'o');
    assert_eq!(line_text(&d, 0), "foo");
    assert!(d.is_dirty());
}

#[test]
fn insert_beyond_line_count_is_noop() {
    let mut d = doc(&["a"]);
    d.insert(&Position { x: 0, y: 2 }, 'x');
    assert_eq!(d.len(), 1);
    assert_eq!(line_text(&d, 0), "a");
    assert!(!d.is_dirty());
}

#[test]
fn insert_at_append_point_opens_line() {
    let mut d = doc(&["a"]);
    d.insert(&Position { x: 0, y: 1 }, 'b');
    assert_eq!(d.len(), 2);
    assert_eq!(line_text(&d, 1), "b");
    assert!(d.is_dirty());
}

#[test]
fn newline_at_end_of_last_line_appends_empty_line() {
    let mut d = doc(&["foo", "bar"]);
    d.insert(&Position { x: 3, y: 1 }, '\n');
    assert_eq!(d.len(), 3);
    assert_eq!(line_text(&d, 0), "foo");
    assert_eq!(line_text(&d, 1), "bar");
    assert_eq!(line_text(&d, 2), "");
    assert!(d.is_dirty());
}

#[test]
fn newline_splits_line() {
    let mut d = doc(&["hello"]);
    d.insert(&Position { x: 2, y: 0 }, '\n');
    assert_eq!(d.len(), 2);
    assert_eq!(line_text(&d, 0), "he");
    assert_eq!(line_text(&d, 1), "llo");
}

#[test]
fn insert_newline_at_line_count_appends() {
    let mut d = doc(&["a"]);
    d.insert_newline(&Position { x: 0, y: 1 });
    assert_eq!(d.len(), 2);
    assert_eq!(line_text(&d, 1), "");
    // insert_newline alone does not mark the buffer dirty.
    assert!(!d.is_dirty());
}

#[test]
fn delete_at_end_of_line_merges_next() {
    let mut d = doc(&["foo", "bar"]);
    d.delete(&Position { x: 3, y: 0 });
    assert_eq!(d.len(), 1);
    assert_eq!(line_text(&d, 0), "foobar");
    assert!(d.is_dirty());
}

#[test]
fn delete_removes_character() {
    let mut d = doc(&["foo"]);
    d.delete(&Position { x: 1, y: 0 });
    assert_eq!(line_text(&d, 0), "fo");
    assert!(d.is_dirty());
}

#[test]
fn delete_beyond_line_count_is_noop() {
    let mut d = doc(&["foo"]);
    d.delete(&Position { x: 0, y: 5 });
    assert_eq!(d.len(), 1);
    assert_eq!(line_text(&d, 0), "foo");
    assert!(!d.is_dirty());
}

#[test]
fn delete_at_end_of_last_line_only_sets_dirty() {
    let mut d = doc(&["foo"]);
    d.delete(&Position { x: 3, y: 0 });
    assert_eq!(d.len(), 1);
    assert_eq!(line_text(&d, 0), "foo");
    assert!(d.is_dirty());
}

#[test]
fn find_forward_in_first_line() {
    let d = doc(&["foo", "boo"]);
    let hit = d.find("o", &Position { x: 0, y: 0 }, SearchDirection::Forward);
    assert_eq!(hit, Some(Position { x: 1, y: 0 }));
}

#[test]
fn find_forward_crosses_line_boundary() {
    let d = doc(&["foo", "boo"]);
    let hit = d.find("o", &Position { x: 3, y: 0 }, SearchDirection::Forward);
    assert_eq!(hit, Some(Position { x: 1, y: 1 }));
}

#[test]
fn find_forward_from_middle_sees_rest_of_line() {
    // Starting inside a line scans that line's remaining clusters first.
    let d = doc(&["foo", "boo"]);
    let hit = d.find("o", &Position { x: 2, y: 0 }, SearchDirection::Forward);
    assert_eq!(hit, Some(Position { x: 2, y: 0 }));
}

#[test]
fn find_forward_does_not_wrap_past_last_line() {
    let d = doc(&["foo", "bar"]);
    let hit = d.find("f", &Position { x: 1, y: 0 }, SearchDirection::Forward);
    assert_eq!(hit, None);
}

#[test]
fn find_backward_crosses_line_boundary() {
    let d = doc(&["foo", "bar"]);
    let hit = d.find("o", &Position { x: 0, y: 1 }, SearchDirection::Backward);
    assert_eq!(hit, Some(Position { x: 2, y: 0 }));
}

#[test]
fn find_backward_does_not_wrap_past_first_line() {
    let d = doc(&["foo", "bar"]);
    let hit = d.find("b", &Position { x: 0, y: 0 }, SearchDirection::Backward);
    assert_eq!(hit, None);
}

#[test]
fn find_empty_query_in_document_gives_none() {
    let d = doc(&["foo", "bar"]);
    assert_eq!(
        d.find("", &Position { x: 0, y: 0 }, SearchDirection::Forward),
        None
    );
    assert_eq!(
        d.find("", &Position { x: 1, y: 1 }, SearchDirection::Backward),
        None
    );
}

#[test]
fn find_start_beyond_lines_gives_none() {
    let d = doc(&["foo"]);
    assert_eq!(
        d.find("f", &Position { x: 0, y: 1 }, SearchDirection::Forward),
        None
    );
}

#[test]
fn find_multi_cluster_query() {
    let d = doc(&["abcabc"]);
    assert_eq!(
        d.find("bc", &Position { x: 0, y: 0 }, SearchDirection::Forward),
        Some(Position { x: 1, y: 0 })
    );
    assert_eq!(
        d.find("bc", &Position { x: 2, y: 0 }, SearchDirection::Forward),
        Some(Position { x: 4, y: 0 })
    );
    assert_eq!(
        d.find("bc", &Position { x: 6, y: 0 }, SearchDirection::Backward),
        Some(Position { x: 4, y: 0 })
    );
}

#[test]
fn contents_joins_lines_with_newlines() {
    let d = doc(&["a", "b"]);
    assert_eq!(d.contents(), "a\nb\n");
    let empty = doc(&[]);
    assert_eq!(empty.contents(), "");
}

#[test]
fn mark_saved_clears_dirty() {
    let mut d = doc(&["a"]);
    d.insert(&Position { x: 1, y: 0 }, 'b');
    assert!(d.is_dirty());
    d.mark_saved();
    assert!(!d.is_dirty());
    assert_eq!(line_text(&d, 0), "ab");
}

#[test]
fn from_lines_picks_profile_from_name() {
    let lines: Vec<String> = vec!["let x = 5;".to_string()];
    let d = Document::from_lines(Some("main.rs".to_string()), &lines);
    assert_eq!(d.file_type.name(), "Rust");
    assert_eq!(d.filename.as_deref(), Some("main.rs"));
    let d = Document::from_lines(Some("notes.txt".to_string()), &lines);
    assert_eq!(d.file_type.name(), "No file type");
}

#[test]
fn document_highlight_marks_search_term_everywhere() {
    let mut d = doc(&["foo", "boo"]);
    d.highlight(Some("oo"));
    let first = d.row(0).unwrap();
    assert_eq!(
        first.highlights,
        vec![Type::Normal, Type::SearchMatch, Type::SearchMatch]
    );
    let second = d.row(1).unwrap();
    assert_eq!(
        second.highlights,
        vec![Type::Normal, Type::SearchMatch, Type::SearchMatch]
    );
}

#[test]
fn default_document_is_clean_and_empty() {
    let d = Document::default();
    assert_eq!(d.len(), 0);
    assert!(!d.is_dirty());
    assert!(d.filename.is_none());
    assert_eq!(d.file_type.name(), "No file type");
}
