use escoop::Source;
use escoop::query::Database;
use escoop::span::Span;

#[test]
fn apply_covers_range() {
    let mut db = Database::default();
    let src = Source::new(&mut db, "test.txt", "foo bar baz");
    let span = Span::new_from(&src, 4, 7);
    assert_eq!(span.apply(&src), b"bar".to_vec());
}

#[test]
fn grow_and_shrink() {
    let mut db = Database::default();
    let src = Source::new(&mut db, "test.txt", "foo bar baz");
    let mut span = Span::new(&src);
    span.grow_front(3);
    assert_eq!(span.apply(&src), b"foo".to_vec());
    let mut span = Span::new_from(&src, 4, 5);
    assert_eq!(span.apply(&src), b"b".to_vec());
    span.grow_front(2);
    assert_eq!(span.apply(&src), b"bar".to_vec());
    let mut span = Span::new_from(&src, 6, 7);
    span.grow_back(2);
    assert_eq!(span.apply(&src), b"bar".to_vec());
    let mut span = Span::new_from(&src, 2, 7);
    span.shrink_back(2);
    assert_eq!(span.apply(&src), b"bar".to_vec());
    let mut span = Span::new_from(&src, 4, 9);
    span.shrink_front(2);
    assert_eq!(span.apply(&src), b"bar".to_vec());
}

#[test]
fn len_and_is_empty() {
    let mut db = Database::default();
    let src = Source::new(&mut db, "test.txt", "foo bar baz");
    let span = Span::new_from(&src, 4, 4);
    assert!(span.is_empty());
    assert_eq!(span.len(), 0);
    let span = Span::new_from(&src, 4, 6);
    assert!(!span.is_empty());
    assert_eq!(span.len(), 2);
}

#[test]
fn update_cuts_to_zero_width() {
    let mut db = Database::default();
    let src = Source::new(&mut db, "test.txt", "foo bar baz");
    let mut span = Span::new_from(&src, 4, 7);
    span.update();
    assert!(span.is_empty());
    assert_eq!(span.start, 7);
    assert_eq!(span.end, 7);
}

#[test]
fn try_apply_out_of_bounds() {
    let mut db = Database::default();
    let src = Source::new(&mut db, "test.txt", "foo bar");
    let span = Span::new_from(&src, 8, 11);
    assert_eq!(span.try_apply(&src), None);
    let span = Span::new_from(&src, 4, 7);
    assert_eq!(span.try_apply(&src), Some(b"bar".to_vec()));
}

#[test]
fn span_of_one_source_fails_on_another() {
    let mut db = Database::default();
    let first = Source::new(&mut db, "a.txt", "foo bar baz");
    let second = Source::new(&mut db, "b.txt", "one two three");
    let span = Span::new_from(&first, 0, 3);
    assert_eq!(span.try_apply(&first), Some(b"foo".to_vec()));
    // Applying against a source the span was not built from must fail,
    // never silently hand back that source's bytes.
    assert_eq!(span.try_apply(&second), None);
}

#[test]
fn code_positions() {
    let mut db = Database::default();
    let src = Source::new(&mut db, "test.txt", "ab\ncde\n\nf");
    let span = Span::new_from(&src, 4, 6);
    assert_eq!(span.get_start_code_pos(&src), (2, 2));
    assert_eq!(span.get_end_code_pos(&src), (2, 4));
    let span = Span::new_from(&src, 0, 0);
    assert_eq!(span.get_start_code_pos(&src), (1, 1));
    let span = Span::new_from(&src, 8, 9);
    assert_eq!(span.get_start_code_pos(&src), (4, 1));
    assert_eq!(span.get_end_code_pos(&src), (4, 2));
    // An offset past the end of the text is clamped to the end.
    let span = Span::new_from(&src, 9, 100);
    assert_eq!(span.get_end_code_pos(&src), (4, 2));
}
