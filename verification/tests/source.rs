use cccc::source::{index_lines, SourceFile};
use cccc::utils::Span;

fn file(text: &str) -> SourceFile {
    SourceFile::new(b"unit.c".to_vec(), text.as_bytes().to_vec())
}

#[test]
fn a_source_keeps_name_and_text() {
    let source = file("int x;\n");
    assert_eq!(source.name(), b"unit.c");
    assert_eq!(source.text(), b"int x;\n");
    let other = source.clone();
    assert_eq!(other.name(), b"unit.c");
    assert_eq!(other.text(), b"int x;\n");
    assert_eq!(other, source);
}

#[test]
fn the_line_index_holds_every_line_start() {
    assert_eq!(index_lines(&b"".to_vec()), vec![0]);
    assert_eq!(index_lines(&b"abc".to_vec()), vec![0]);
    assert_eq!(index_lines(&b"a\nbc\n\nd".to_vec()), vec![0, 2, 5, 6]);
    assert_eq!(index_lines(&b"a\n".to_vec()), vec![0, 2]);
    assert_eq!(index_lines(&b"\n\n".to_vec()), vec![0, 1, 2]);
}

#[test]
fn get_line_gives_text_span_and_number() {
    let source = file("a\nbc\n\nd");
    let lines = source.lines();
    let first = lines.get_line(0).unwrap();
    assert_eq!(first.text, b"a\n");
    assert_eq!(first.span, Span { start: 0, end: 2 });
    assert_eq!(first.line, 1);
    let second = lines.get_line(1).unwrap();
    assert_eq!(second.text, b"bc\n");
    assert_eq!(second.span, Span { start: 2, end: 5 });
    assert_eq!(second.line, 2);
    let third = lines.get_line(2).unwrap();
    assert_eq!(third.text, b"\n");
    assert_eq!(third.line, 3);
}

#[test]
fn the_last_line_needs_no_terminator() {
    let source = file("a\nbc\n\nd");
    let last = source.lines().get_line(3).unwrap();
    assert_eq!(last.text, b"d");
    assert_eq!(last.span, Span { start: 6, end: 7 });
    assert_eq!(last.line, 4);
}

#[test]
fn a_line_out_of_range_is_none() {
    let source = file("a\nbc\n\nd");
    assert!(source.lines().get_line(4).is_none());
    assert!(source.lines().get_line(usize::MAX).is_none());
    let empty = file("");
    assert_eq!(empty.lines().get_line(0).unwrap().text, b"");
    assert!(empty.lines().get_line(1).is_none());
}

#[test]
fn lines_walk_from_both_ends() {
    let source = file("a\nbc\n\nd");
    let mut lines = source.lines();
    assert_eq!(lines.len(), 4);
    assert_eq!(lines.next().unwrap().text, b"a\n");
    assert_eq!(lines.next_back().unwrap().text, b"d");
    assert_eq!(lines.len(), 2);
    assert_eq!(lines.next().unwrap().text, b"bc\n");
    assert_eq!(lines.next_back().unwrap().text, b"\n");
    assert_eq!(lines.len(), 0);
    assert!(lines.next().is_none());
    assert!(lines.next_back().is_none());
}

#[test]
fn a_walk_can_start_again() {
    let source = file("x\ny");
    let mut first = source.lines();
    assert_eq!(first.next().unwrap().text, b"x\n");
    let mut again = source.lines();
    assert_eq!(again.next().unwrap().text, b"x\n");
    assert_eq!(again.next().unwrap().text, b"y");
    assert!(again.next().is_none());
}

#[test]
fn nth_skips_from_the_front() {
    let source = file("a\nbc\n\nd");
    let mut lines = source.lines();
    assert_eq!(lines.nth(1).unwrap().text, b"bc\n");
    assert_eq!(lines.len(), 2);
    assert_eq!(lines.nth(0).unwrap().text, b"\n");
    assert!(lines.nth(1).is_none());
    assert_eq!(lines.len(), 0);
    let mut other = source.lines();
    assert!(other.nth(4).is_none());
    assert_eq!(other.len(), 0);
    let mut third = source.lines();
    assert_eq!(third.nth(3).unwrap().text, b"d");
}

#[test]
fn nth_back_skips_from_the_back() {
    let source = file("a\nbc\n\nd");
    let mut lines = source.lines();
    assert_eq!(lines.nth_back(1).unwrap().text, b"\n");
    assert_eq!(lines.len(), 2);
    assert_eq!(lines.nth_back(1).unwrap().text, b"a\n");
    assert_eq!(lines.len(), 0);
    let mut other = source.lines();
    assert!(other.nth_back(usize::MAX).is_none());
    assert_eq!(other.len(), 0);
}

#[test]
fn line_index_finds_the_line_of_an_offset() {
    let source = file("a\nbc\n\nd");
    assert_eq!(source.line_index(0), 0);
    assert_eq!(source.line_index(1), 0);
    assert_eq!(source.line_index(2), 1);
    assert_eq!(source.line_index(4), 1);
    assert_eq!(source.line_index(5), 2);
    assert_eq!(source.line_index(6), 3);
    assert_eq!(source.line_index(7), 3);
    assert_eq!(source.line_index(1000), 3);
}

#[test]
fn line_at_gives_the_line_of_an_offset() {
    let source = file("a\nbc\n\nd");
    let line = source.line_at(3);
    assert_eq!(line.text, b"bc\n");
    assert_eq!(line.span, Span { start: 2, end: 5 });
    assert_eq!(line.line, 2);
    assert_eq!(source.line_at(0).line, 1);
    assert_eq!(source.line_at(5).text, b"\n");
    assert_eq!(source.line_at(7).text, b"d");
    assert_eq!(source.line_at(usize::MAX).line, 4);
}
