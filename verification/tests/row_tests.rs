use hecto::Row;
use hecto::SearchDirection;

fn row_text(row: &Row) -> String {
    row.text()
}

#[test]
fn from_text_counts_graphemes() {
    let row = Row::from_text("foo");
    assert_eq!(row.len(), 3);
    assert!(!row.is_empty());
    let empty = Row::from_text("");
    assert_eq!(empty.len(), 0);
    assert!(empty.is_empty());
}

#[test]
fn from_text_groups_combining_marks() {
    // One user-perceived character built from two code points is one cluster.
    let row = Row::from_text("e\u{301}x");
    assert_eq!(row.len(), 2);
    assert_eq!(row_text(&row), "e\u{301}x");
}

#[test]
fn insert_appends_and_splices() {
    let mut row = Row::from_text("ac");
    row.insert(1, 'b');
    assert_eq!(row_text(&row), "abc");
    assert_eq!(row.len(), 3);
    row.insert(99, 'd');
    assert_eq!(row_text(&row), "abcd");
    assert_eq!(row.len(), 4);
}

#[test]
fn delete_removes_cluster_and_ignores_out_of_range() {
    let mut row = Row::from_text("abc");
    row.delete(1);
    assert_eq!(row_text(&row), "ac");
    row.delete(10);
    assert_eq!(row_text(&row), "ac");
    assert_eq!(row.len(), 2);
}

#[test]
fn insert_then_delete_round_trips() {
    let mut row = Row::from_text("héllo");
    let before = row_text(&row);
    let len = row.len();
    for i in 0..=len {
        row.insert(i, 'z');
        row.delete(i);
        assert_eq!(row_text(&row), before);
        assert_eq!(row.len(), len);
    }
}

#[test]
fn split_then_append_reconstructs() {
    for k in 0..=6 {
        let mut row = Row::from_text("hello");
        let rest = row.split(k);
        let mut rebuilt = row;
        rebuilt.append(&rest);
        assert_eq!(row_text(&rebuilt), "hello");
        assert_eq!(rebuilt.len(), 5);
    }
}

#[test]
fn split_partitions_content() {
    let mut row = Row::from_text("hello");
    let rest = row.split(2);
    assert_eq!(row_text(&row), "he");
    assert_eq!(row_text(&rest), "llo");
    assert_eq!(row.len(), 2);
    assert_eq!(rest.len(), 3);
}

#[test]
fn split_beyond_end_keeps_everything() {
    let mut row = Row::from_text("ab");
    let rest = row.split(9);
    assert_eq!(row_text(&row), "ab");
    assert_eq!(row_text(&rest), "");
}

#[test]
fn display_length_counts_tabs_double() {
    let row = Row::from_text("a\tb");
    assert_eq!(row.display_length(), 4);
    let plain = Row::from_text("abc");
    assert_eq!(plain.display_length(), 3);
}

#[test]
fn as_bytes_gives_utf8() {
    let row = Row::from_text("abc");
    assert_eq!(row.as_bytes(), b"abc".to_vec());
    let accented = Row::from_text("é");
    assert_eq!(accented.as_bytes(), "é".as_bytes().to_vec());
}

#[test]
fn find_forward_and_backward() {
    let row = Row::from_text("foo");
    assert_eq!(row.find("o", 0, SearchDirection::Forward), Some(1));
    assert_eq!(row.find("o", 2, SearchDirection::Forward), Some(2));
    assert_eq!(row.find("o", 3, SearchDirection::Forward), None);
    assert_eq!(row.find("o", 3, SearchDirection::Backward), Some(2));
    assert_eq!(row.find("f", 3, SearchDirection::Backward), Some(0));
    assert_eq!(row.find("f", 0, SearchDirection::Backward), None);
    assert_eq!(row.find("x", 0, SearchDirection::Forward), None);
}

#[test]
fn find_beyond_length_gives_none() {
    let row = Row::from_text("foo");
    assert_eq!(row.find("f", 4, SearchDirection::Forward), None);
    assert_eq!(row.find("f", 4, SearchDirection::Backward), None);
}

#[test]
fn find_empty_query_gives_none() {
    let row = Row::from_text("foo");
    assert_eq!(row.find("", 0, SearchDirection::Forward), None);
    assert_eq!(row.find("", 2, SearchDirection::Backward), None);
    let empty = Row::from_text("");
    assert_eq!(empty.find("", 0, SearchDirection::Forward), None);
}

#[test]
fn find_matches_whole_clusters_only() {
    // The accented cluster is not a bare "e": cluster-accurate search does
    // not report a match inside it.
    let row = Row::from_text("e\u{301}e");
    assert_eq!(row.find("e", 0, SearchDirection::Forward), Some(1));
}

#[test]
fn display_length_counts_clusters_not_code_points() {
    let row = Row::from_text("e\u{301}x");
    assert_eq!(row.display_length(), 2);
}

#[test]
fn render_shows_whole_clusters() {
    let row = Row::from_text("e\u{301}");
    let rendered = row.render(0, 1);
    assert_eq!(rendered, "\u{1b}[38;2;255;255;255me\u{301}\u{1b}[39m");
}
