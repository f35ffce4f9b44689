use chunk_cursor::Cursor;

#[test]
fn byte_slice_is_a_single_chunk() {
    let data: &[u8] = b"hello world";
    let mut cursor: &[u8] = data;
    assert_eq!(cursor.chunk(), b"hello world");
    assert!(cursor.utf8_aware());
    assert!(!cursor.advance());
    assert!(!cursor.backtrack());
    assert_eq!(cursor.chunk(), b"hello world");
}

#[test]
fn str_slice_is_a_single_chunk() {
    let mut cursor: &str = "hello world";
    assert_eq!(cursor.chunk(), b"hello world");
    assert!(cursor.utf8_aware());
    assert!(!cursor.advance());
    assert!(!cursor.backtrack());
    assert_eq!(cursor.chunk(), b"hello world");
}

#[test]
fn str_slice_shows_its_encoding() {
    let cursor: &str = "größer";
    assert_eq!(cursor.chunk(), &[0x67u8, 0x72, 0xC3, 0xB6, 0xC3, 0x9F, 0x65, 0x72][..]);
}

#[test]
fn byte_slice_need_not_be_text() {
    let data: &[u8] = &[0xFF, 0x00, 0xC3];
    let mut cursor: &[u8] = data;
    assert!(cursor.utf8_aware());
    assert_eq!(cursor.chunk(), &[0xFFu8, 0x00, 0xC3][..]);
    assert!(!cursor.advance());
    assert_eq!(cursor.chunk(), &[0xFFu8, 0x00, 0xC3][..]);
}

#[test]
fn empty_flat_buffers() {
    let mut bytes: &[u8] = b"";
    assert!(bytes.chunk().is_empty());
    assert!(!bytes.advance());
    assert!(!bytes.backtrack());
    let mut text: &str = "";
    assert!(text.chunk().is_empty());
    assert!(!text.advance());
    assert!(!text.backtrack());
    assert!(text.utf8_aware());
}

#[test]
fn flat_buffers_never_move() {
    let mut bytes: &[u8] = b"abc";
    let mut text: &str = "abc";
    for _ in 0..4 {
        assert!(!bytes.advance());
        assert!(!text.advance());
        assert!(!bytes.backtrack());
        assert!(!text.backtrack());
        assert_eq!(bytes.chunk(), b"abc");
        assert_eq!(text.chunk(), b"abc");
        assert!(bytes.utf8_aware());
        assert!(text.utf8_aware());
    }
}
