use escoop::Source;
use escoop::diag::{self, Diag, Severity};
use escoop::lexer::Lexer;
use escoop::query::Database;
use escoop::span::Span;

#[test]
fn flags_start_unset() {
    let db = Database::default();
    assert!(!diag::error(&db));
    assert!(!diag::bug(&db));
}

#[test]
fn emitting_error_sets_sticky_flag() {
    let mut db = Database::default();
    let src = Source::new(&mut db, "t.scp", "text");
    Diag::error(&src).with_message("something failed").finish().emit(&mut db);
    assert!(diag::error(&db));
    assert!(!diag::bug(&db));
    // Sticky: a later harmless report does not clear it.
    Diag::note(&src).with_message("just a note").finish().emit(&mut db);
    assert!(diag::error(&db));
    assert_eq!(db.diagnostics().len(), 2);
}

#[test]
fn emitting_bug_sets_bug_flag() {
    let mut db = Database::default();
    let src = Source::new(&mut db, "t.scp", "text");
    Diag::bug(&src).with_message("internal fault").finish().emit(&mut db);
    assert!(diag::bug(&db));
    assert!(!diag::error(&db));
}

#[test]
fn warnings_and_notes_set_no_flag() {
    let mut db = Database::default();
    let src = Source::new(&mut db, "t.scp", "text");
    Diag::warn(&src).with_message("w").finish().emit(&mut db);
    Diag::note(&src).with_message("n").finish().emit(&mut db);
    Diag::help(&src).with_message("h").finish().emit(&mut db);
    assert!(!diag::error(&db));
    assert!(!diag::bug(&db));
    assert_eq!(db.diagnostics().len(), 3);
}

#[test]
fn builder_collects_parts() {
    let mut db = Database::default();
    let src = Source::new(&mut db, "t.scp", "some text");
    let d = Diag::build(&src, Severity::Warning)
        .with_message("message")
        .with_code("W001")
        .with_label(Span::new_from(&src, 0, 4))
        .with_labels(vec![Span::new_from(&src, 5, 9)])
        .with_note("a note")
        .with_notes(vec![b"more".to_vec(), b"notes".to_vec()])
        .finish();
    assert_eq!(d.severity, Severity::Warning);
    assert_eq!(d.src_id, src.id);
    assert_eq!(d.message, b"message".to_vec());
    assert_eq!(d.code, Some(b"W001".to_vec()));
    assert_eq!(d.labels.len(), 2);
    assert_eq!(d.labels[0], Span::new_from(&src, 0, 4));
    assert_eq!(d.labels[1], Span::new_from(&src, 5, 9));
    assert_eq!(
        d.notes,
        vec![b"a note".to_vec(), b"more".to_vec(), b"notes".to_vec()]
    );
    d.emit(&mut db);
}

#[test]
fn render_unterminated_string_report() {
    let mut db = Database::default();
    let src = Source::new(&mut db, "t.scp", "'abc\ndef");
    let mut lexer = Lexer::new(&src);
    lexer.next(&mut db).unwrap();
    assert_eq!(db.diagnostics().len(), 1);
    let rendered = db.diagnostics()[0].render(&src);
    let expected = "error: unterminated string\n --> t.scp:1:1\n'abc\n^^^^\n";
    assert_eq!(
        String::from_utf8(rendered).unwrap(),
        expected.to_string()
    );
}

#[test]
fn render_without_span_is_header_only() {
    let mut db = Database::default();
    let src = Source::new(&mut db, "t.scp", "text");
    let d = Diag::warn(&src).with_message("just saying").finish();
    assert_eq!(d.render(&src), b"warning: just saying\n".to_vec());
    d.emit(&mut db);
}

#[test]
fn render_points_at_the_right_line_and_column() {
    let text = "line one\nline two\nline three #\nline four";
    let mut db = Database::default();
    let src = Source::new(&mut db, "file.scp", text);
    // The bad byte sits on line 3, column 12.
    let offset = text.find('#').unwrap() as u32;
    let d = Diag::error(&src)
        .with_message("unknown character `#`")
        .with_label(Span::new_from(&src, offset, offset + 1))
        .finish();
    let rendered = d.render(&src);
    let expected = "error: unknown character `#`\n --> file.scp:3:12\nline three #\n           ^\n";
    assert_eq!(String::from_utf8(rendered).unwrap(), expected.to_string());
    d.emit(&mut db);
}

#[test]
fn render_strips_carriage_return_and_counts_two_digit_lines() {
    let mut lines: Vec<String> = Vec::new();
    for i in 0..12 {
        lines.push(format!("row number {}\r\n", i));
    }
    let text = lines.concat();
    let mut db = Database::default();
    let src = Source::new(&mut db, "big.scp", &text);
    // "row" on the 12th line (1-indexed), so the locator needs two digits.
    let offset = text.rfind("row").unwrap() as u32;
    let d = Diag::error(&src)
        .with_message("m")
        .with_label(Span::new_from(&src, offset, offset + 3))
        .finish();
    let rendered = d.render(&src);
    let expected = "error: m\n --> big.scp:12:1\nrow number 11\n^^^\n";
    assert_eq!(String::from_utf8(rendered).unwrap(), expected.to_string());
    d.emit(&mut db);
}

#[test]
fn render_of_foreign_span_degrades_to_header() {
    let mut db = Database::default();
    let first = Source::new(&mut db, "a.scp", "aaaa");
    let second = Source::new(&mut db, "b.scp", "bbbb");
    let d = Diag::error(&first)
        .with_message("m")
        .with_label(Span::new_from(&first, 0, 2))
        .finish();
    // Rendering against a source the span does not belong to must not
    // excerpt that source's bytes.
    assert_eq!(d.render(&second), b"error: m\n".to_vec());
    d.emit(&mut db);
}

#[test]
fn render_of_span_past_the_text_degrades_to_header() {
    let mut db = Database::default();
    let src = Source::new(&mut db, "t.scp", "ab");
    let d = Diag::error(&src)
        .with_message("m")
        .with_label(Span::new_from(&src, 0, 40))
        .finish();
    assert_eq!(d.render(&src), b"error: m\n".to_vec());
    d.emit(&mut db);
}

#[test]
fn zero_width_span_renders_one_caret() {
    let mut db = Database::default();
    let src = Source::new(&mut db, "t.scp", "abcd");
    let d = Diag::error(&src)
        .with_message("m")
        .with_label(Span::new_from(&src, 2, 2))
        .finish();
    let expected = "error: m\n --> t.scp:1:3\nabcd\n  ^\n";
    assert_eq!(String::from_utf8(d.render(&src)).unwrap(), expected.to_string());
    d.emit(&mut db);
}
