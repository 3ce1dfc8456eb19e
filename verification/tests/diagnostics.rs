use cccc::diagnostics::{push_repeated, AggregateError, ErrorComponent, ErrorLevel, RenderContext};
use cccc::source::SourceFile;
use cccc::utils::Span;

fn file(text: &str) -> SourceFile {
    SourceFile::new(b"unit.c".to_vec(), text.as_bytes().to_vec())
}

fn component(source: &SourceFile, message: &str, start: usize, end: usize) -> ErrorComponent {
    ErrorComponent::new(source.clone(), message.as_bytes().to_vec(), Span { start, end })
}

fn rendered(component: &ErrorComponent, color: bool) -> String {
    let mut out = Vec::new();
    component.render(&RenderContext { color }, &mut out);
    String::from_utf8(out).unwrap()
}

#[test]
fn a_new_component_is_an_error_with_a_headline() {
    let source = file("int x;");
    let c = component(&source, "bad", 4, 5);
    assert_eq!(c.level, ErrorLevel::Error);
    assert_eq!(c.short_message, b"bad".to_vec());
    assert_eq!(c.long_message, Vec::<u8>::new());
    assert_eq!(c.source, source);
    assert_eq!(c.highlight, Span { start: 4, end: 5 });
    assert_eq!(c.highlight_message, None);
}

#[test]
fn setters_chain() {
    let source = file("int x;");
    let mut c = component(&source, "bad", 4, 5);
    c.set_level(ErrorLevel::Warning)
        .set_long_message(b"more".to_vec())
        .set_highlight_message(b"here".to_vec());
    assert_eq!(c.level, ErrorLevel::Warning);
    assert_eq!(c.short_message, b"bad".to_vec());
    assert_eq!(c.long_message, b"more".to_vec());
    assert_eq!(c.highlight_message, Some(b"here".to_vec()));
    assert_eq!(c.highlight, Span { start: 4, end: 5 });
}

#[test]
fn a_new_aggregate_is_empty() {
    let errors = AggregateError::new();
    assert!(errors.is_empty());
    assert!(!errors.has_error());
    assert!(AggregateError::default().is_empty());
    assert_eq!(errors.render(&RenderContext::default()), Vec::<u8>::new());
}

#[test]
fn has_error_looks_for_an_error_among_the_components() {
    let source = file("int x;");
    let mut errors = AggregateError::new();
    errors.add_error(component(&source, "w1", 0, 1)).set_level(ErrorLevel::Warning);
    assert!(!errors.is_empty());
    assert!(!errors.has_error());
    errors.add_error(component(&source, "e", 0, 1));
    assert!(errors.has_error());
    errors.add_error(component(&source, "w2", 0, 1)).set_level(ErrorLevel::Warning);
    assert!(errors.has_error());
    assert_eq!(errors.components.len(), 3);
}

#[test]
fn add_error_hands_back_the_recorded_component() {
    let source = file("int x;");
    let mut errors = AggregateError::new();
    errors.add_error(component(&source, "first", 0, 1));
    let added = errors.add_error(component(&source, "second", 1, 2));
    assert_eq!(added.short_message, b"second".to_vec());
    added.set_long_message(b"long".to_vec());
    assert_eq!(errors.components[0].short_message, b"first".to_vec());
    assert_eq!(errors.components[1].short_message, b"second".to_vec());
    assert_eq!(errors.components[1].long_message, b"long".to_vec());
}

#[test]
fn append_keeps_the_left_components_first() {
    let source = file("int x;");
    let mut left = AggregateError::new();
    left.add_error(component(&source, "a", 0, 1));
    left.add_error(component(&source, "b", 0, 1));
    let mut right = AggregateError::new();
    right.add_error(component(&source, "c", 0, 1));
    right.add_error(component(&source, "a", 0, 1));
    left.append(&mut right);
    let messages: Vec<Vec<u8>> = left.components.iter().map(|c| c.short_message.clone()).collect();
    assert_eq!(messages, vec![b"a".to_vec(), b"b".to_vec(), b"c".to_vec(), b"a".to_vec()]);
    assert!(right.is_empty());
    let mut empty = AggregateError::new();
    left.append(&mut empty);
    assert_eq!(left.components.len(), 4);
}

#[test]
fn a_component_renders_with_line_column_and_marking() {
    let source = file("int 5; int main(void){return 0;}");
    let mut c = component(&source, "Expected identifier", 4, 5);
    c.set_highlight_message(b"found `5`".to_vec());
    assert_eq!(
        rendered(&c, false),
        "error: Expected identifier\n  --> unit.c:1:5\n   | int 5; int main(void){return 0;}\n   |     ^ found `5`\n"
    );
}

#[test]
fn rendering_finds_the_line_of_the_highlight() {
    let source = file("int main(void){\n  return foo;\n}\n");
    let mut c = component(&source, "odd", 25, 28);
    c.set_level(ErrorLevel::Warning).set_long_message(b"only literals can be returned".to_vec());
    assert_eq!(
        rendered(&c, false),
        "warning: odd\n  --> unit.c:2:10\n   |   return foo;\n   |          ^^^\nonly literals can be returned\n"
    );
}

#[test]
fn rendering_with_colour_wraps_the_tag() {
    let source = file("x");
    let c = component(&source, "m", 0, 1);
    assert_eq!(rendered(&c, true), "\x1b[31merror\x1b[0m: m\n  --> unit.c:1:1\n   | x\n   | ^\n");
    let mut w = component(&source, "m", 0, 1);
    w.set_level(ErrorLevel::Warning);
    assert_eq!(rendered(&w, true), "\x1b[33mwarning\x1b[0m: m\n  --> unit.c:1:1\n   | x\n   | ^\n");
}

#[test]
fn rendering_marks_at_least_one_column() {
    let source = file("ab\ncd");
    assert_eq!(rendered(&component(&source, "m", 5, 5), false), "error: m\n  --> unit.c:2:3\n   | cd\n   |   ^\n");
    assert_eq!(rendered(&component(&source, "m", 1, 5), false), "error: m\n  --> unit.c:1:2\n   | ab\n   |  ^\n");
    assert_eq!(rendered(&component(&source, "m", 9, 2), false), "error: m\n  --> unit.c:2:3\n   | cd\n   |   ^\n");
    let empty = file("");
    assert_eq!(rendered(&component(&empty, "m", 0, 0), false), "error: m\n  --> unit.c:1:1\n   | \n   | ^\n");
}

#[test]
fn components_render_in_insertion_order() {
    let source = file("ab\ncd");
    let mut errors = AggregateError::new();
    errors.add_error(component(&source, "second line", 3, 5));
    errors.add_error(component(&source, "first line", 0, 2));
    errors.add_error(component(&source, "second line", 3, 5));
    let one = "error: second line\n  --> unit.c:2:1\n   | cd\n   | ^^\n";
    let two = "error: first line\n  --> unit.c:1:1\n   | ab\n   | ^^\n";
    assert_eq!(String::from_utf8(errors.render(&RenderContext { color: false })).unwrap(), format!("{one}{two}{one}"));
}

#[test]
fn locate_gives_line_indent_and_width() {
    let source = file("ab\ncdef\n");
    let c = component(&source, "m", 4, 6);
    let place = c.locate();
    assert_eq!(place.line, 1);
    assert_eq!(place.indent, 1);
    assert_eq!(place.shown, b"cdef");
    assert_eq!(place.width, 2);
}

#[test]
fn push_repeated_appends_the_byte() {
    let mut out = b"x".to_vec();
    push_repeated(&mut out, b'-', 3);
    push_repeated(&mut out, b'+', 0);
    assert_eq!(out, b"x---".to_vec());
}
