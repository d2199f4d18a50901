use multipart::buffer::ByteBuffer;
use multipart::error::MultipartError;

#[test]
fn test_eof() {
    let mut payload = ByteBuffer::new();

    assert_eq!(None, payload.read_max(4).unwrap());
    payload.feed(b"data");
    payload.set_eof();

    assert_eq!(Some(b"data".to_vec()), payload.read_max(4).unwrap());
    assert_eq!(payload.len(), 0);
    assert!(payload.read_max(1).is_err());
    assert!(payload.eof());
}

#[test]
fn test_readmax() {
    let mut payload = ByteBuffer::new();

    payload.feed(b"line1");
    payload.feed(b"line2");
    assert_eq!(payload.len(), 10);

    assert_eq!(Some(b"line1".to_vec()), payload.read_max(5).unwrap());
    assert_eq!(payload.len(), 5);

    assert_eq!(Some(b"line2".to_vec()), payload.read_max(5).unwrap());
    assert_eq!(payload.len(), 0);
}

#[test]
fn test_readexactly() {
    let mut payload = ByteBuffer::new();

    assert_eq!(None, payload.read_exact(2));

    payload.feed(b"line1");
    payload.feed(b"line2");

    assert_eq!(Some(b"li".to_vec()), payload.read_exact(2));
    assert_eq!(payload.len(), 8);

    assert_eq!(Some(b"ne1l".to_vec()), payload.read_exact(4));
    assert_eq!(payload.len(), 4);
}

#[test]
fn test_readuntil() {
    let mut payload = ByteBuffer::new();

    assert_eq!(None, payload.read_until(b"ne").unwrap());

    payload.feed(b"line1");
    payload.feed(b"line2");

    assert_eq!(Some(b"line".to_vec()), payload.read_until(b"ne").unwrap());
    assert_eq!(payload.len(), 6);

    assert_eq!(Some(b"1line2".to_vec()), payload.read_until(b"2").unwrap());
    assert_eq!(payload.len(), 0);
}

#[test]
fn test_readline_or_eof() {
    let mut payload = ByteBuffer::new();
    payload.feed(b"one\r\ntail");
    assert_eq!(Some(b"one\r\n".to_vec()), payload.readline_or_eof().unwrap());
    // No line feed and the upstream is still open: pending.
    assert_eq!(None, payload.readline_or_eof().unwrap());
    payload.set_eof();
    // At end of input the remaining bytes come back as the last line.
    assert_eq!(Some(b"tail".to_vec()), payload.readline_or_eof().unwrap());
    assert_eq!(payload.len(), 0);
}

#[test]
fn test_unprocessed() {
    let mut payload = ByteBuffer::new();
    payload.feed(b"world");
    payload.unprocessed(b"hello ".to_vec());
    assert_eq!(Some(b"hello world".to_vec()), payload.read_max(100).unwrap());
}

#[test]
fn test_readline_incomplete() {
    let mut payload = ByteBuffer::new();
    payload.feed(b"no newline");
    payload.set_eof();
    assert!(matches!(payload.readline(), Err(MultipartError::Incomplete)));
}

// Feeding the same bytes in different chunkings leaves the buffer with
// the same contents.
#[test]
fn test_chunking_invariance() {
    let mut one = ByteBuffer::new();
    one.feed(b"abcdef");

    let mut two = ByteBuffer::new();
    for byte in b"abcdef" {
        two.feed(&[*byte]);
    }

    assert_eq!(one.read_max(100).unwrap(), two.read_max(100).unwrap());
}
