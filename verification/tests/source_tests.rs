use escoop::{Source, SourceError};
use escoop::query::Database;

#[test]
fn line_starts_are_recorded() {
    let mut db = Database::default();
    let src = Source::new(&mut db, "test.txt", "ab\ncde\n\nf");
    assert_eq!(src.line_starts, vec![0, 3, 7, 8]);
    assert_eq!(src.name(), &b"test.txt".to_vec());
    assert_eq!(src.source(), &b"ab\ncde\n\nf".to_vec());
}

#[test]
fn line_for_offset_matches_byte_scan() {
    let text = "first\nsecond\n\nfourth line\r\nfifth";
    let mut db = Database::default();
    let src = Source::new(&mut db, "test.txt", text);
    let bytes = text.as_bytes();
    for offset in 0..=bytes.len() {
        // By-hand scan: the 0-indexed line of an offset is the number of
        // line breaks before it.
        let by_hand = bytes[..offset].iter().filter(|b| **b == b'\n').count();
        assert_eq!(src.line_index(offset), by_hand, "offset {}", offset);
    }
}

#[test]
fn line_ranges() {
    let mut db = Database::default();
    let src = Source::new(&mut db, "test.txt", "ab\ncde\n\nf");
    assert_eq!(src.line_range(0), Ok((0, 3)));
    assert_eq!(src.line_range(1), Ok((3, 7)));
    assert_eq!(src.line_range(2), Ok((7, 8)));
    assert_eq!(src.line_range(3), Ok((8, 9)));
    assert_eq!(
        src.line_range(4),
        Err(SourceError::LineOutOfRange { given: 4, max: 3 })
    );
    assert_eq!(
        src.line_range(17),
        Err(SourceError::LineOutOfRange { given: 17, max: 3 })
    );
}

#[test]
fn line_start_of_each_line() {
    let mut db = Database::default();
    let src = Source::new(&mut db, "test.txt", "ab\ncd");
    assert_eq!(src.line_start(0), Ok(0));
    assert_eq!(src.line_start(1), Ok(3));
    assert_eq!(src.line_start(2), Ok(5));
    assert_eq!(
        src.line_start(3),
        Err(SourceError::LineOutOfRange { given: 3, max: 1 })
    );
}

#[test]
fn sources_get_distinct_ids() {
    let mut db = Database::default();
    let first = Source::new(&mut db, "a.txt", "aaa");
    let second = Source::new(&mut db, "b.txt", "bbb");
    let third = Source::new(&mut db, "c.txt", "ccc");
    assert_ne!(first.id, second.id);
    assert_ne!(second.id, third.id);
    assert_ne!(first.id, third.id);
}

#[test]
fn clone_keeps_everything() {
    let mut db = Database::default();
    let src = Source::new(&mut db, "test.txt", "ab\ncd");
    let copy = src.clone();
    assert_eq!(copy.id, src.id);
    assert_eq!(copy.path, src.path);
    assert_eq!(copy.text, src.text);
    assert_eq!(copy.line_starts, src.line_starts);
}
