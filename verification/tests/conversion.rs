use chunk_cursor::Bytes;
use chunk_cursor::Cursor;
use chunk_cursor::IntoCursor;
use chunk_cursor::RopeyCursor;
use ropey::Rope;

/// Reads everything from the current chunk to the end of the source.
fn read_to_end<C: Cursor>(mut cursor: C) -> Vec<u8> {
    let mut all = cursor.chunk().to_vec();
    while cursor.advance() {
        all.extend_from_slice(cursor.chunk());
    }
    all
}

/// Reads everything from any value that can be turned into a cursor.
fn read_all<T: IntoCursor>(source: T) -> Vec<u8> {
    read_to_end(source.into_cursor())
}

fn long_text() -> String {
    let mut text = String::new();
    let mut line: usize = 0;
    while text.len() < 4000 {
        text.push_str(&format!("{line}: some text to fill the rope with\n"));
        line += 1;
    }
    text
}

#[test]
fn cursor_converts_into_itself() {
    let data: &[u8] = b"flat";
    let cursor: &[u8] = data.into_cursor();
    assert_eq!(cursor.chunk(), b"flat");
    let text: &str = "text".into_cursor();
    assert_eq!(text.chunk(), b"text");
}

#[test]
fn iterator_cursor_converts_into_itself() {
    let parts: [&[u8]; 3] = [b"a", b"", b"b"];
    let mut cursor = Bytes::new(parts.into_iter());
    assert!(cursor.advance());
    let mut same = cursor.into_cursor();
    assert_eq!(same.chunk(), b"b");
    assert!(!same.advance());
}

#[test]
fn rope_cursor_converts_into_itself() {
    let text = long_text();
    let rope = Rope::from_str(&text);
    let chunks: Vec<&str> = rope.chunks().collect();
    let mut cursor = RopeyCursor::new(rope.chunks());
    assert!(cursor.advance());
    let mut same = cursor.into_cursor();
    assert_eq!(same.chunk(), chunks[1].as_bytes());
    assert!(same.backtrack());
    assert_eq!(same.chunk(), chunks[0].as_bytes());
}

#[test]
fn anything_cursor_like_can_be_read() {
    let text = long_text();
    let rope = Rope::from_str(&text);
    assert_eq!(read_all(rope.chunks()), text.as_bytes().to_vec());
    assert_eq!(read_all(RopeyCursor::new(rope.chunks())), text.as_bytes().to_vec());
    assert_eq!(read_all(text.as_str()), text.as_bytes().to_vec());
    assert_eq!(read_all(text.as_bytes()), text.as_bytes().to_vec());
    let parts: [&[u8]; 4] = [b"ab", b"", b"cd", b"e"];
    assert_eq!(read_all(Bytes::new(parts.into_iter())), b"abcde".to_vec());
}

#[test]
fn cursor_by_reference_moves_the_cursor_behind_it() {
    let text = long_text();
    let rope = Rope::from_str(&text);
    let chunks: Vec<&str> = rope.chunks().collect();
    assert!(chunks.len() >= 3);
    let mut cursor = RopeyCursor::new(rope.chunks());
    {
        let mut by_ref = &mut cursor;
        assert_eq!(Cursor::chunk(&by_ref), chunks[0].as_bytes());
        assert!(Cursor::utf8_aware(&by_ref));
        assert!(Cursor::advance(&mut by_ref));
        assert_eq!(Cursor::chunk(&by_ref), chunks[1].as_bytes());
    }
    assert_eq!(cursor.chunk(), chunks[1].as_bytes());
    {
        let mut by_ref = &mut cursor;
        assert!(Cursor::backtrack(&mut by_ref));
        assert!(!Cursor::backtrack(&mut by_ref));
    }
    assert_eq!(cursor.chunk(), chunks[0].as_bytes());
}

#[test]
fn cursor_by_reference_can_be_used_again_afterwards() {
    let text = long_text();
    let rope = Rope::from_str(&text);
    let chunks: Vec<&str> = rope.chunks().collect();
    let mut cursor = RopeyCursor::new(rope.chunks());
    let all = read_to_end(&mut cursor);
    assert_eq!(all, text.as_bytes().to_vec());
    assert_eq!(cursor.chunk(), chunks[chunks.len() - 1].as_bytes());
    assert!(!cursor.advance());
    assert!(cursor.backtrack());
    assert_eq!(cursor.chunk(), chunks[chunks.len() - 2].as_bytes());
}

#[test]
fn cursor_by_reference_reports_the_same_awareness() {
    let parts: [&[u8]; 2] = [b"a", b"b"];
    let mut raw = Bytes::new(parts.into_iter());
    let mut by_ref = &mut raw;
    assert!(!Cursor::utf8_aware(&by_ref));
    assert!(Cursor::advance(&mut by_ref));
    assert!(!Cursor::backtrack(&mut by_ref));
    assert_eq!(Cursor::chunk(&by_ref), b"b");
    assert!(!Cursor::advance(&mut by_ref));
    assert_eq!(raw.chunk(), b"b");
    let mut flat: &str = "flat";
    let mut flat_ref = &mut flat;
    assert!(Cursor::utf8_aware(&flat_ref));
    assert!(!Cursor::advance(&mut flat_ref));
    assert_eq!(Cursor::chunk(&flat_ref), b"flat");
}

#[test]
fn utf8_awareness_over_the_same_content() {
    let content = "the same content";
    let flat_bytes: &[u8] = content.as_bytes();
    let flat_text: &str = content;
    let raw_parts: [&[u8]; 1] = [content.as_bytes()];
    let text_parts: [&str; 1] = [content];
    let rope = Rope::from_str(content);
    let raw = Bytes::new(raw_parts.into_iter());
    let text = chunk_cursor::Utf8Bytes::new(text_parts.into_iter());
    let rope_cursor = RopeyCursor::new(rope.chunks());
    assert_eq!(flat_bytes.chunk(), content.as_bytes());
    assert_eq!(flat_text.chunk(), content.as_bytes());
    assert_eq!(raw.chunk(), content.as_bytes());
    assert_eq!(text.chunk(), content.as_bytes());
    assert_eq!(rope_cursor.chunk(), content.as_bytes());
    assert!(flat_bytes.utf8_aware());
    assert!(flat_text.utf8_aware());
    assert!(!raw.utf8_aware());
    assert!(text.utf8_aware());
    assert!(rope_cursor.utf8_aware());
}
