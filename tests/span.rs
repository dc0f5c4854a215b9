use ox_content::span::{Position, Span};

#[test]
fn test_span_new() {
    let span = Span::new(10, 20);
    assert_eq!(span.start, 10);
    assert_eq!(span.end, 20);
    assert_eq!(span.len(), 10);
}

#[test]
fn test_span_merge() {
    let span1 = Span::new(0, 10);
    let span2 = Span::new(5, 20);
    let merged = span1.merge(span2);
    assert_eq!(merged.start, 0);
    assert_eq!(merged.end, 20);
}

#[test]
fn test_span_contains() {
    let span = Span::new(10, 20);
    assert!(span.contains(10));
    assert!(span.contains(15));
    assert!(!span.contains(20));
    assert!(!span.contains(5));
}

#[test]
fn test_source_text() {
    let source = "hello world";
    let span = Span::new(0, 5);
    assert_eq!(span.source_text(source), "hello");
}

#[test]
fn span_empty_and_contains_span() {
    let e = Span::empty();
    assert!(e.is_empty());
    assert_eq!(e, Span::default());
    let outer = Span::new(2, 9);
    assert!(outer.contains_span(&Span::new(2, 9)));
    assert!(outer.contains_span(&Span::new(3, 4)));
    assert!(!outer.contains_span(&Span::new(1, 4)));
    assert!(!outer.contains_span(&Span::new(5, 10)));
    assert!(!Span::new(3, 4).is_empty());
}

#[test]
fn span_merge_disjoint() {
    let merged = Span::new(30, 40).merge(Span::new(1, 2));
    assert_eq!(merged, Span::new(1, 40));
}

#[test]
fn span_source_text_multibyte() {
    let source = "aé b";
    assert_eq!(Span::new(1, 3).source_text(source), "é");
    assert_eq!(Span::new(4, 5).source_text(source), "b");
}

#[test]
fn position_new() {
    let p = Position::new(3, 7, 42);
    assert_eq!((p.line, p.column, p.offset), (3, 7, 42));
}
