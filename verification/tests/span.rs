use wiki2md::ast::{Span, SpanBase, SpanEncoding, SpanUnit};

#[test]
fn span_len_and_emptiness() {
    let s = Span::new(3, 10);
    assert_eq!(s.len(), 7);
    assert!(!s.is_empty());
    assert!(Span::new(4, 4).is_empty());
    assert_eq!(Span::new(4, 4).len(), 0);
    let crossed = Span { start: 9, end: 2 };
    assert_eq!(crossed.len(), 0);
    assert!(crossed.is_empty());
    assert_eq!(Span::default(), Span { start: 0, end: 0 });
}

#[test]
fn span_contains_is_half_open() {
    let s = Span::new(3, 5);
    assert!(!s.contains(2));
    assert!(s.contains(3));
    assert!(s.contains(4));
    assert!(!s.contains(5));
}

#[test]
fn span_cover_is_the_least_span_over_both() {
    let a = Span::new(3, 5);
    let b = Span::new(1, 4);
    assert_eq!(a.cover(b), Span::new(1, 5));
    assert_eq!(b.cover(a), Span::new(1, 5));
    assert_eq!(a.cover(a), a);
    assert_eq!(Span::new(0, 0).cover(Span::new(7, 9)), Span::new(0, 9));
}

#[test]
fn span_encoding_defaults_to_bytes_of_raw_input() {
    let e = SpanEncoding::default();
    assert_eq!(e.unit, SpanUnit::Byte);
    assert_eq!(e.base, SpanBase::RawInput);
}
