use escoop::Cursor;

#[test]
fn peek_test() {
    let source = "Hello, this is a test!";
    let mut cursor = Cursor::new(source);
    assert_eq!(cursor.peek(), Some(b'H'));
    assert_eq!(cursor.peek(), Some(b'H'));
    assert_eq!(cursor.next(), Some(b'H'));
    assert_eq!(cursor.peek(), Some(b'e'));
    assert_eq!(cursor.next(), Some(b'e'));
    assert_eq!(cursor.next(), Some(b'l'));
    assert_eq!(cursor.next(), Some(b'l'));
    assert_eq!(cursor.remaining(), b"o, this is a test!".to_vec());
}

#[test]
fn lib_eof_test() {
    let source = "Test";
    let mut cursor = Cursor::new(source);
    assert!(!cursor.eof());
    cursor.next(); // T
    assert!(!cursor.eof());
    cursor.next(); // e
    assert!(!cursor.eof());
    cursor.next(); // s
    assert!(!cursor.eof());
    cursor.next(); // t
    assert!(cursor.eof());
    assert!(cursor.next().is_none()); // None
}

#[test]
fn cursor_empty() {
    let mut cursor = Cursor::new("");
    assert!(cursor.eof());
    assert_eq!(cursor.peek(), None);
    assert_eq!(cursor.next(), None);
    assert_eq!(cursor.remaining(), Vec::<u8>::new());
}
