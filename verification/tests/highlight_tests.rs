use hecto::FileType;
use hecto::Row;
use hecto::Type;

fn rust_row(text: &str) -> Row {
    let ft = FileType::from_file_name("sample.rs");
    let mut row = Row::from_text(text);
    row.highlight(ft.highlighting_options(), None);
    row
}

#[test]
fn keywords_and_numbers_classified() {
    let row = rust_row("let x = 5;");
    let expected = vec![
        Type::PrimaryKeyword,
        Type::PrimaryKeyword,
        Type::PrimaryKeyword,
        Type::Normal,
        Type::Normal,
        Type::Normal,
        Type::Normal,
        Type::Normal,
        Type::Number,
        Type::Normal,
    ];
    assert_eq!(row.highlights, expected);
}

#[test]
fn string_span_classified_with_quotes() {
    let row = rust_row("abc \"hi\" def");
    let mut expected = vec![Type::Normal; 12];
    for i in 4..8 {
        expected[i] = Type::String;
    }
    assert_eq!(row.highlights, expected);
}

#[test]
fn escaped_quote_stays_inside_string() {
    let row = rust_row("\"a\\\"b\"c");
    // " a \ " b " c  -- the escaped quote does not close the string.
    let expected = vec![
        Type::String,
        Type::String,
        Type::String,
        Type::String,
        Type::String,
        Type::String,
        Type::Normal,
    ];
    assert_eq!(row.highlights, expected);
}

#[test]
fn character_literal_classified() {
    let row = rust_row("'x' y");
    let expected = vec![
        Type::Character,
        Type::Character,
        Type::Character,
        Type::Normal,
        Type::Normal,
    ];
    assert_eq!(row.highlights, expected);
}

#[test]
fn escaped_character_literal_classified() {
    let row = rust_row("'\\n'");
    assert_eq!(row.highlights, vec![Type::Character; 4]);
}

#[test]
fn unclosed_quote_is_punctuation() {
    let row = rust_row("'abc");
    assert_eq!(
        row.highlights,
        vec![Type::Normal, Type::Normal, Type::Normal, Type::Normal]
    );
}

#[test]
fn comment_runs_to_end_of_line() {
    let row = rust_row("ab// c");
    let expected = vec![
        Type::Normal,
        Type::Normal,
        Type::Comment,
        Type::Comment,
        Type::Comment,
        Type::Comment,
    ];
    assert_eq!(row.highlights, expected);
}

#[test]
fn secondary_keyword_classified() {
    let row = rust_row("x: u32");
    let expected = vec![
        Type::Normal,
        Type::Normal,
        Type::Normal,
        Type::SecondaryKeyword,
        Type::SecondaryKeyword,
        Type::SecondaryKeyword,
    ];
    assert_eq!(row.highlights, expected);
}

#[test]
fn keyword_needs_word_boundary() {
    // "letx" is not the keyword "let"; "xlet" does not start at a boundary.
    let row = rust_row("letx xlet");
    assert_eq!(row.highlights, vec![Type::Normal; 9]);
}

#[test]
fn decimal_and_separator_digits_continue_numbers() {
    let row = rust_row("3.14 1_0");
    let expected = vec![
        Type::Number,
        Type::Number,
        Type::Number,
        Type::Number,
        Type::Normal,
        Type::Number,
        Type::Number,
        Type::Number,
    ];
    assert_eq!(row.highlights, expected);
}

#[test]
fn digit_inside_word_not_number() {
    let row = rust_row("x5");
    assert_eq!(row.highlights, vec![Type::Normal, Type::Normal]);
}

#[test]
fn search_term_overrides_other_rules() {
    let ft = FileType::from_file_name("sample.rs");
    let mut row = Row::from_text("foo");
    row.highlight(ft.highlighting_options(), Some("o"));
    assert_eq!(
        row.highlights,
        vec![Type::Normal, Type::SearchMatch, Type::SearchMatch]
    );
}

#[test]
fn search_matches_found_non_overlapping() {
    let ft = FileType::from_file_name("sample.rs");
    let mut row = Row::from_text("aaa");
    row.highlight(ft.highlighting_options(), Some("aa"));
    assert_eq!(
        row.highlights,
        vec![Type::SearchMatch, Type::SearchMatch, Type::Normal]
    );
}

#[test]
fn noop_profile_highlights_nothing() {
    let ft = FileType::from_file_name("notes.txt");
    let mut row = Row::from_text("let x = 5; \"s\" // c");
    row.highlight(ft.highlighting_options(), None);
    assert!(row.highlights.iter().all(|t| *t == Type::Normal));
    assert_eq!(row.highlights.len(), row.len());
}

#[test]
fn file_type_names() {
    assert_eq!(FileType::from_file_name("a.rs").name(), "Rust");
    assert_eq!(FileType::from_file_name("a.txt").name(), "No file type");
    assert_eq!(FileType::from_file_name("rs").name(), "No file type");
    let opts = FileType::from_file_name("a.rs");
    let opts = opts.highlighting_options();
    assert!(opts.numbers() && opts.strings() && opts.characters() && opts.comments());
    assert!(opts.primary_keywords().iter().any(|k| k.as_str() == "let"));
    assert!(opts.secondary_keywords().iter().any(|k| k.as_str() == "u32"));
}

#[test]
fn render_emits_markers_and_expands_tabs() {
    let row = Row::from_text("a\tb");
    let rendered = row.render(0, 10);
    assert_eq!(rendered, "\u{1b}[38;2;255;255;255ma  b\u{1b}[39m");
}

#[test]
fn render_marks_classification_changes() {
    let row = rust_row("a5");
    // 'a' is Normal (same as the opening default marker), '5' is not a number
    // here (no separator before it)? 'a' then '5' continues the word, so both
    // stay Normal and only the default marker and reset appear.
    let rendered = row.render(0, 2);
    assert_eq!(rendered, "\u{1b}[38;2;255;255;255ma5\u{1b}[39m");
    let row = rust_row("5");
    let rendered = row.render(0, 1);
    assert_eq!(
        rendered,
        "\u{1b}[38;2;255;255;255m\u{1b}[38;2;220;163;163m5\u{1b}[39m"
    );
}

#[test]
fn render_clamps_window() {
    let row = rust_row("abc");
    let rendered = row.render(2, 1);
    assert_eq!(rendered, "\u{1b}[38;2;255;255;255m\u{1b}[39m");
    let rendered = row.render(1, 2);
    assert_eq!(rendered, "\u{1b}[38;2;255;255;255mb\u{1b}[39m");
}

#[test]
fn render_huge_window_stays_within_line() {
    let row = rust_row("let x = 5;\tend");
    let rendered = row.render(0, usize::MAX);
    // Strip the color markers: what remains is the displayed text, and it
    // never exceeds the display length (tabs count two columns).
    let mut visible = String::new();
    let mut in_escape = false;
    for c in rendered.chars() {
        if in_escape {
            if c == 'm' {
                in_escape = false;
            }
        } else if c == '\u{1b}' {
            in_escape = true;
        } else {
            visible.push(c);
        }
    }
    assert_eq!(visible, "let x = 5;  end");
    assert!(visible.chars().count() <= row.display_length());
}
