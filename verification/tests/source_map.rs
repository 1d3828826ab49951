use diagrustic::source_map::SourceMap;
use diagrustic::span::FileId;

#[test]
fn add_source_returns_file_scoped_span_handle() {
    let mut source_map = SourceMap::default();
    let source = source_map.add_source("input.rs", "let value = 1;");

    let span = source.span(4..9);

    assert_eq!(source.filename(), "input.rs");
    assert_eq!(source.text(), "let value = 1;");
    assert_eq!(span.start(), 4);
    assert_eq!(span.end(), 9);
    assert_eq!(span.range(), 4..9);
    assert_eq!(source_map.filename(span.file_id()), Some("input.rs"));
}

#[test]
fn line_col_handles_multiline_offsets() {
    let mut source_map = SourceMap::default();
    let file = source_map.add_file("foo.rs", "alpha\nbeta\ngamma");

    assert_eq!(source_map.line_col(file, 0), Some((1, 1)));
    assert_eq!(source_map.line_col(file, 5), Some((1, 6)));
    assert_eq!(source_map.line_col(file, 6), Some((2, 1)));
    assert_eq!(source_map.line_col(file, 10), Some((2, 5)));
    assert_eq!(source_map.line_col(file, 11), Some((3, 1)));
    assert_eq!(source_map.line_col(file, 16), Some((3, 6)));
    assert_eq!(source_map.line_col(file, 17), None);
}

#[test]
fn line_col_counts_characters_not_bytes() {
    let source = "let\tπ = \"中\";";
    let mut source_map = SourceMap::default();
    let file = source_map.add_file("unicode.rs", source);

    assert_eq!(source_map.line_col(file, source.find('π').unwrap()), Some((1, 5)));
    assert_eq!(source_map.line_col(file, source.find('中').unwrap()), Some((1, 10)));
}

#[test]
fn line_and_line_start_use_one_based_lines() {
    let mut source_map = SourceMap::default();
    let file = source_map.add_file("foo.rs", "alpha\nbeta\ngamma");

    assert_eq!(source_map.line(file, 1), Some("alpha"));
    assert_eq!(source_map.line(file, 2), Some("beta"));
    assert_eq!(source_map.line(file, 3), Some("gamma"));
    assert_eq!(source_map.line(file, 4), None);
    assert_eq!(source_map.line_start(file, 0), Some(0));
    assert_eq!(source_map.line_start(file, 6), Some(6));
    assert_eq!(source_map.line_start(file, 16), Some(11));
    assert_eq!(source_map.line_start_for_line(file, 1), Some(0));
    assert_eq!(source_map.line_start_for_line(file, 2), Some(6));
    assert_eq!(source_map.line_start_for_line(file, 3), Some(11));
    assert_eq!(source_map.line_start_for_line(file, 4), None);
}

#[test]
fn added_files_read_back_and_keep_earlier_files() {
    let mut source_map = SourceMap::default();
    let first = source_map.add_file("a.rs", "fn a() {}");
    let second = source_map.add_file(String::from("b.rs"), String::from("fn b() {}\n"));

    assert_eq!(first.index(), 0);
    assert_eq!(second.index(), 1);
    assert_eq!(source_map.source(first), Some("fn a() {}"));
    assert_eq!(source_map.filename(first), Some("a.rs"));
    assert_eq!(source_map.source(second), Some("fn b() {}\n"));
    assert_eq!(source_map.filename(second), Some("b.rs"));
}

#[test]
fn unknown_file_answers_none() {
    let mut source_map = SourceMap::default();
    let _ = source_map.add_file("a.rs", "x");
    let missing = FileId::new(5);

    assert_eq!(source_map.source(missing), None);
    assert_eq!(source_map.filename(missing), None);
    assert_eq!(source_map.line_col(missing, 0), None);
    assert_eq!(source_map.line(missing, 1), None);
    assert_eq!(source_map.line_start(missing, 0), None);
    assert_eq!(source_map.line_start_for_line(missing, 1), None);
    assert!(source_map.source_handle(missing).is_none());
    assert!(source_map.source_handle(FileId::new(0)).is_some());
}

#[test]
fn line_col_rejects_offsets_inside_a_character() {
    let mut source_map = SourceMap::default();
    let file = source_map.add_file("u.rs", "aπb");

    assert_eq!(source_map.line_col(file, 1), Some((1, 2)));
    assert_eq!(source_map.line_col(file, 2), None);
    assert_eq!(source_map.line_col(file, 3), Some((1, 3)));
    assert_eq!(source_map.line_start(file, 2), Some(0));
    assert_eq!(source_map.line_start(file, 5), None);
}

#[test]
fn line_zero_and_trailing_empty_line() {
    let mut source_map = SourceMap::default();
    let file = source_map.add_file("e.rs", "a\n");

    assert_eq!(source_map.line(file, 0), None);
    assert_eq!(source_map.line(file, 1), Some("a"));
    assert_eq!(source_map.line(file, 2), Some(""));
    assert_eq!(source_map.line_start_for_line(file, 0), None);
    assert_eq!(source_map.line_col(file, 2), Some((2, 1)));
}

#[test]
fn every_line_start_is_column_one() {
    let text = "first\n\nthird line\nπ\n";
    let mut source_map = SourceMap::default();
    let file = source_map.add_file("lines.rs", text);

    let mut line = 1;
    while let Some(start) = source_map.line_start_for_line(file, line) {
        assert_eq!(source_map.line_col(file, start), Some((line, 1)));
        assert_eq!(source_map.line_start(file, start), Some(start));
        assert!(!source_map.line(file, line).unwrap().contains('\n'));
        line += 1;
    }
    assert_eq!(line, 6);
}

#[test]
fn line_col_line_agrees_with_line_start() {
    let mut source_map = SourceMap::default();
    let file = source_map.add_file("foo.rs", "alpha\nbeta\ngamma");

    for offset in 0..=16 {
        let (line, _) = source_map.line_col(file, offset).unwrap();
        assert_eq!(
            source_map.line_start(file, offset),
            source_map.line_start_for_line(file, line)
        );
    }
}

#[test]
fn span_length_and_handle_map() {
    let mut source_map = SourceMap::default();
    let source = source_map.add_source("s.rs", "let value = 1;");
    let span = source.span(4..9);

    assert_eq!(span.len(), 5);
    assert_eq!(source.source_map().filename(span.file_id()), Some("s.rs"));
}

#[test]
fn file_ids_are_equal_by_index_and_add_source_extends_the_map() {
    assert_eq!(FileId::new(3), FileId::new(3));
    assert_ne!(FileId::new(3), FileId::new(4));

    let mut source_map = SourceMap::default();
    let _ = source_map.add_file("a.rs", "a");
    let handle = source_map.add_source("b.rs", "b");
    let id = handle.span(0..1).file_id();
    assert_eq!(id, FileId::new(1));
    assert_eq!(source_map.source(FileId::new(1)), Some("b"));
    assert_eq!(source_map.filename(FileId::new(0)), Some("a.rs"));
    assert_eq!(source_map.source(FileId::new(2)), None);
}
