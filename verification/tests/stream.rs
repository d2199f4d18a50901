use multipart::error::{MultipartError, PayloadError};
use multipart::field::PartRead;
use multipart::form::{json_content_type_valid, text_content_type_valid, Limits};
use multipart::headers::{parse_u64, HeaderEntry, Headers};
use multipart::media::MediaType;
use multipart::multipart::{Field, Multipart, OuterPoll};

const CT: &[u8] = b"multipart/mixed; boundary=\"abbc761f78ff4d7cb7573b5a23f96ef0\"";

fn simple_body() -> Vec<u8> {
    b"testasdadsad\r\n\
      --abbc761f78ff4d7cb7573b5a23f96ef0\r\n\
      Content-Disposition: form-data; name=\"file\"; filename=\"fn.txt\"\r\n\
      Content-Type: text/plain; charset=utf-8\r\nContent-Length: 4\r\n\r\n\
      test\r\n\
      --abbc761f78ff4d7cb7573b5a23f96ef0\r\n\
      Content-Type: text/plain; charset=utf-8\r\nContent-Length: 4\r\n\r\n\
      data\r\n\
      --abbc761f78ff4d7cb7573b5a23f96ef0--\r\n"
        .to_vec()
}

fn expect_field(m: &mut Multipart) -> Field {
    match m.poll_next() {
        OuterPoll::Field(f) => f,
        OuterPoll::Pending => panic!("unexpected pending"),
        OuterPoll::Eof => panic!("unexpected eof"),
        OuterPoll::Failed(e) => panic!("unexpected error: {:?}", e),
    }
}

fn whole_body(m: &mut Multipart, f: &Field) -> Vec<u8> {
    let mut out: Vec<u8> = Vec::new();
    loop {
        match m.poll_part(f) {
            PartRead::Chunk(c) => out.extend_from_slice(&c),
            PartRead::End => return out,
            PartRead::Pending => panic!("unexpected pending"),
            PartRead::Failed(e) => panic!("unexpected error: {:?}", e),
        }
    }
}

#[test]
fn test_boundary() {
    match Multipart::boundary(None) {
        Err(MultipartError::NoContentType) => (),
        _ => unreachable!("should not happen"),
    }

    match Multipart::boundary(Some(b"test")) {
        Err(MultipartError::ParseContentType) => (),
        _ => unreachable!("should not happen"),
    }

    match Multipart::boundary(Some(b"multipart/mixed")) {
        Err(MultipartError::Boundary) => (),
        _ => unreachable!("should not happen"),
    }

    let ct: &[u8] = b"multipart/mixed; boundary=\"5c02368e880e436dab70ed54e1c58209\"";
    assert_eq!(
        Multipart::boundary(Some(ct)).unwrap().1,
        b"5c02368e880e436dab70ed54e1c58209".to_vec()
    );
}

#[test]
fn test_multipart() {
    let mut m = Multipart::new(Some(CT));
    m.feed(&simple_body());

    let f = expect_field(&mut m);
    assert_eq!(f.content_type().unwrap().typ, b"text".to_vec());
    assert_eq!(f.content_type().unwrap().subtype, b"plain".to_vec());
    assert_eq!(f.name(), Some("file"));
    match m.poll_part(&f) {
        PartRead::Chunk(c) => assert_eq!(c, b"test".to_vec()),
        _ => unreachable!(),
    }
    match m.poll_part(&f) {
        PartRead::End => (),
        _ => unreachable!(),
    }
    m.release_part(f);

    let f = expect_field(&mut m);
    assert_eq!(f.content_type().unwrap().typ, b"text".to_vec());
    assert_eq!(f.content_type().unwrap().subtype, b"plain".to_vec());
    assert!(f.content_disposition().is_none());
    match m.poll_part(&f) {
        PartRead::Chunk(c) => assert_eq!(c, b"data".to_vec()),
        _ => unreachable!(),
    }
    match m.poll_part(&f) {
        PartRead::End => (),
        _ => unreachable!(),
    }
    m.release_part(f);

    match m.poll_next() {
        OuterPoll::Eof => (),
        _ => unreachable!(),
    }
}

#[test]
fn test_multipart_no_end_crlf() {
    let mut body = simple_body();
    // Truncate the line ending after the closing boundary.
    body.truncate(body.len() - 2);

    let mut m = Multipart::new(Some(CT));
    m.feed(&body);
    m.feed_eof();

    let f = expect_field(&mut m);
    assert_eq!(whole_body(&mut m, &f), b"test".to_vec());
    m.release_part(f);

    let f = expect_field(&mut m);
    assert_eq!(whole_body(&mut m, &f), b"data".to_vec());
    m.release_part(f);

    match m.poll_next() {
        OuterPoll::Eof => (),
        _ => unreachable!(),
    }
}

fn feed_one(m: &mut Multipart, data: &[u8], idx: &mut usize) {
    if *idx < data.len() {
        m.feed(&data[*idx..*idx + 1]);
        *idx += 1;
    } else {
        m.feed_eof();
    }
}

fn poll_outer_feeding(m: &mut Multipart, data: &[u8], idx: &mut usize) -> OuterPoll {
    loop {
        match m.poll_next() {
            OuterPoll::Pending => feed_one(m, data, idx),
            other => return other,
        }
    }
}

fn whole_body_feeding(m: &mut Multipart, f: &Field, data: &[u8], idx: &mut usize) -> Vec<u8> {
    let mut out: Vec<u8> = Vec::new();
    loop {
        match m.poll_part(f) {
            PartRead::Chunk(c) => out.extend_from_slice(&c),
            PartRead::End => return out,
            PartRead::Pending => feed_one(m, data, idx),
            PartRead::Failed(e) => panic!("unexpected error: {:?}", e),
        }
    }
}

#[test]
fn test_stream() {
    // The same body fed one byte at a time: the same parts come out.
    let body = simple_body();
    let mut idx: usize = 0;
    let mut m = Multipart::new(Some(CT));

    let f = match poll_outer_feeding(&mut m, &body, &mut idx) {
        OuterPoll::Field(f) => f,
        _ => unreachable!(),
    };
    assert_eq!(f.content_type().unwrap().typ, b"text".to_vec());
    assert_eq!(f.content_type().unwrap().subtype, b"plain".to_vec());
    assert_eq!(whole_body_feeding(&mut m, &f, &body, &mut idx), b"test".to_vec());
    m.release_part(f);

    let f = match poll_outer_feeding(&mut m, &body, &mut idx) {
        OuterPoll::Field(f) => f,
        _ => unreachable!(),
    };
    assert_eq!(f.content_type().unwrap().typ, b"text".to_vec());
    assert_eq!(f.content_type().unwrap().subtype, b"plain".to_vec());
    assert_eq!(whole_body_feeding(&mut m, &f, &body, &mut idx), b"data".to_vec());
    m.release_part(f);

    match poll_outer_feeding(&mut m, &body, &mut idx) {
        OuterPoll::Eof => (),
        _ => unreachable!(),
    }
}

#[test]
fn test_streaming_part_one_byte_at_a_time() {
    // A part with no Content-Length, fed byte by byte: boundary
    // scanning must wait out partial markers and never yield any part
    // of the boundary marker as body data.
    let body: &[u8] =
        b"--bnd\r\nX-Info: none\r\n\r\nhello\rworld\r\n--bnd--\r\n";
    let mut idx: usize = 0;
    let mut m = Multipart::new(Some(b"multipart/mixed; boundary=bnd"));

    let f = match poll_outer_feeding(&mut m, body, &mut idx) {
        OuterPoll::Field(f) => f,
        _ => unreachable!(),
    };
    let collected = whole_body_feeding(&mut m, &f, body, &mut idx);
    assert_eq!(collected, b"hello\rworld".to_vec());
    m.release_part(f);
    match poll_outer_feeding(&mut m, body, &mut idx) {
        OuterPoll::Eof => (),
        _ => unreachable!(),
    }
}

#[test]
fn test_no_content_type() {
    let mut m = Multipart::new(None);
    match m.poll_next() {
        OuterPoll::Failed(MultipartError::NoContentType) => (),
        _ => unreachable!(),
    }
    // The error is surfaced once; afterwards the stream is inert.
    match m.poll_next() {
        OuterPoll::Eof => (),
        _ => unreachable!(),
    }
}

#[test]
fn test_content_type_accessor() {
    let mut m = Multipart::new(None);
    match m.content_type() {
        Err(MultipartError::NoContentType) => (),
        _ => unreachable!(),
    }

    let mut m = Multipart::new(Some(CT));
    let mt: MediaType = m.content_type().unwrap();
    assert_eq!(mt.typ, b"multipart".to_vec());
    assert_eq!(mt.subtype, b"mixed".to_vec());
    assert_eq!(mt.boundary, Some(b"abbc761f78ff4d7cb7573b5a23f96ef0".to_vec()));
}

#[test]
fn test_invalid_content_type_bytes() {
    let mut m = Multipart::new(Some(&[0xff, 0xfe, 0x00]));
    match m.poll_next() {
        OuterPoll::Failed(MultipartError::ParseContentType) => (),
        _ => unreachable!(),
    }
}

#[test]
fn test_incompatible_content_type() {
    let mut m = Multipart::new(Some(b"text/plain"));
    match m.poll_next() {
        OuterPoll::Failed(MultipartError::IncompatibleContentType) => (),
        _ => unreachable!(),
    }
}

#[test]
fn test_short_declared_length_incomplete() {
    // Declared Content-Length of 4, but the upstream ends after 3
    // body bytes: the part fails with Incomplete.
    let body: &[u8] = b"--bnd\r\n\
        Content-Disposition: form-data; name=\"f\"\r\nContent-Length: 4\r\n\r\n\
        dat";
    let mut m = Multipart::new(Some(b"multipart/form-data; boundary=bnd"));
    m.feed(body);
    m.feed_eof();

    let f = expect_field(&mut m);
    assert_eq!(f.form_field_name(), "f");
    match m.poll_part(&f) {
        PartRead::Chunk(c) => assert_eq!(c, b"dat".to_vec()),
        _ => unreachable!(),
    }
    match m.poll_part(&f) {
        PartRead::Failed(MultipartError::Incomplete) => (),
        _ => unreachable!(),
    }
}

#[test]
fn test_nested_multipart_rejected() {
    let body: &[u8] = b"--bnd\r\n\
        Content-Type: multipart/alternative; boundary=inner\r\n\r\n\
        x\r\n--bnd--\r\n";
    let mut m = Multipart::new(Some(b"multipart/mixed; boundary=bnd"));
    m.feed(body);
    match m.poll_next() {
        OuterPoll::Failed(MultipartError::Nested) => (),
        _ => unreachable!(),
    }
}

#[test]
fn test_form_data_requires_disposition() {
    let body: &[u8] = b"--bnd\r\n\
        Content-Type: text/plain\r\n\r\n\
        ab\r\n--bnd--\r\n";
    let mut m = Multipart::new(Some(b"multipart/form-data; boundary=bnd"));
    m.feed(body);
    match m.poll_next() {
        OuterPoll::Failed(MultipartError::ContentDispositionMissing) => (),
        _ => unreachable!(),
    }
}

#[test]
fn test_form_data_requires_name() {
    let body: &[u8] = b"--bnd\r\n\
        Content-Disposition: form-data; filename=\"a.txt\"\r\n\r\n\
        ab\r\n--bnd--\r\n";
    let mut m = Multipart::new(Some(b"multipart/form-data; boundary=bnd"));
    m.feed(body);
    match m.poll_next() {
        OuterPoll::Failed(MultipartError::ContentDispositionNameMissing) => (),
        _ => unreachable!(),
    }
}

#[test]
fn test_malformed_part_headers() {
    let body: &[u8] = b"--bnd\r\n\
        Bad Header Line\r\n\r\n\
        ab\r\n--bnd--\r\n";
    let mut m = Multipart::new(Some(b"multipart/mixed; boundary=bnd"));
    m.feed(body);
    match m.poll_next() {
        OuterPoll::Failed(MultipartError::Decode) => (),
        _ => unreachable!(),
    }
}

#[test]
fn test_truncated_headers_incomplete() {
    let body: &[u8] = b"--bnd\r\nContent-";
    let mut m = Multipart::new(Some(b"multipart/mixed; boundary=bnd"));
    m.feed(body);
    m.feed_eof();
    match m.poll_next() {
        OuterPoll::Failed(MultipartError::Incomplete) => (),
        _ => unreachable!(),
    }
}

#[test]
fn test_bad_boundary_line() {
    let body: &[u8] = b"--bnd\r\n\
        Content-Length: 2\r\n\r\n\
        AB\r\nGARBAGE\r\n";
    let mut m = Multipart::new(Some(b"multipart/mixed; boundary=bnd"));
    m.feed(body);
    let f = expect_field(&mut m);
    assert_eq!(whole_body(&mut m, &f), b"AB".to_vec());
    m.release_part(f);
    match m.poll_next() {
        OuterPoll::Failed(MultipartError::Boundary) => (),
        _ => unreachable!(),
    }
}

#[test]
fn test_invalid_content_length() {
    let body: &[u8] = b"--bnd\r\n\
        Content-Length: xyz\r\n\r\n\
        ab\r\n--bnd--\r\n";
    let mut m = Multipart::new(Some(b"multipart/mixed; boundary=bnd"));
    m.feed(body);
    match m.poll_next() {
        OuterPoll::Failed(MultipartError::Payload(PayloadError::Incomplete)) => (),
        _ => unreachable!(),
    }
}

#[test]
fn test_drop_part_midway() {
    // Dropping a part reader mid-stream and polling the outer stream
    // again yields the next part with intact headers.
    let mut m = Multipart::new(Some(CT));
    m.feed(&simple_body());

    let f = expect_field(&mut m);
    // Read nothing of the body; give the token back at once.
    m.release_part(f);

    let f = expect_field(&mut m);
    assert_eq!(f.content_type().unwrap().typ, b"text".to_vec());
    assert!(f.content_disposition().is_none());
    assert_eq!(whole_body(&mut m, &f), b"data".to_vec());
    m.release_part(f);

    match m.poll_next() {
        OuterPoll::Eof => (),
        _ => unreachable!(),
    }
}

#[test]
fn test_single_active_part() {
    // While a part token is outstanding, the outer stream makes no
    // progress.
    let mut m = Multipart::new(Some(CT));
    m.feed(&simple_body());

    let f = expect_field(&mut m);
    match m.poll_next() {
        OuterPoll::Pending => (),
        _ => unreachable!(),
    }
    // The part itself still reads fine.
    match m.poll_part(&f) {
        PartRead::Chunk(c) => assert_eq!(c, b"test".to_vec()),
        _ => unreachable!(),
    }
    m.release_part(f);
}

#[test]
fn test_not_consumed_after_root_release() {
    // Discarding the outer stream while a part is outstanding trips
    // the clean flag: the orphaned part fails with NotConsumed.
    let mut m = Multipart::new(Some(CT));
    m.feed(&simple_body());

    let f = expect_field(&mut m);
    m.release_root();
    match m.poll_part(&f) {
        PartRead::Failed(MultipartError::NotConsumed) => (),
        _ => unreachable!(),
    }
}

#[test]
fn test_parse_u64() {
    assert_eq!(parse_u64(b"4"), Some(4));
    assert_eq!(parse_u64(b"0"), Some(0));
    assert_eq!(parse_u64(b""), None);
    assert_eq!(parse_u64(b"12a"), None);
    assert_eq!(parse_u64(b"+4"), None);
    assert_eq!(parse_u64(b"18446744073709551615"), Some(u64::MAX));
    assert_eq!(parse_u64(b"18446744073709551616"), None);
}

#[test]
fn test_headers_lookup() {
    let h = Headers {
        entries: vec![
            HeaderEntry { name: b"Content-Type".to_vec(), value: b"text/plain".to_vec() },
            HeaderEntry { name: b"X-One".to_vec(), value: b"first".to_vec() },
            HeaderEntry { name: b"x-one".to_vec(), value: b"second".to_vec() },
        ],
    };
    assert_eq!(h.get(b"content-type"), Some(b"text/plain".to_vec()));
    assert_eq!(h.get(b"X-ONE"), Some(b"first".to_vec()));
    assert_eq!(h.get(b"missing"), None);
    assert_eq!(h.len(), 3);
}

#[test]
fn test_limits() {
    let mut limits = Limits::new(10, 5);
    assert!(limits.try_consume_limits(4, true).is_ok());
    assert_eq!(limits.total_limit_remaining, 6);
    assert_eq!(limits.memory_limit_remaining, 1);

    // The memory budget is exhausted before the total.
    match limits.try_consume_limits(2, true) {
        Err(MultipartError::Payload(PayloadError::Overflow)) => (),
        _ => unreachable!(),
    }

    // Not in memory: only the total budget is charged.
    assert!(limits.try_consume_limits(2, false).is_ok());
    assert_eq!(limits.total_limit_remaining, 2);
    assert_eq!(limits.memory_limit_remaining, 1);

    match limits.try_consume_limits(3, false) {
        Err(MultipartError::Payload(PayloadError::Overflow)) => (),
        _ => unreachable!(),
    }

    let mut limits = Limits::new(100, 100);
    limits.field_limit_remaining = Some(1);
    match limits.try_consume_limits(2, false) {
        Err(MultipartError::Payload(PayloadError::Overflow)) => (),
        _ => unreachable!(),
    }
    assert!(limits.try_consume_limits(1, false).is_ok());
    assert_eq!(limits.field_limit_remaining, Some(0));
}

#[test]
fn test_content_type_validators() {
    let plain = MediaType {
        typ: b"text".to_vec(),
        subtype: b"plain".to_vec(),
        suffix: None,
        boundary: None,
    };
    let json = MediaType {
        typ: b"application".to_vec(),
        subtype: b"json".to_vec(),
        suffix: None,
        boundary: None,
    };
    let ld_json = MediaType {
        typ: b"application".to_vec(),
        subtype: b"ld+json".to_vec(),
        suffix: Some(b"json".to_vec()),
        boundary: None,
    };
    assert!(text_content_type_valid(Some(&plain)));
    assert!(!text_content_type_valid(Some(&json)));
    assert!(text_content_type_valid(None));
    assert!(json_content_type_valid(Some(&json)));
    assert!(json_content_type_valid(Some(&ld_json)));
    assert!(!json_content_type_valid(Some(&plain)));
    assert!(!json_content_type_valid(None));
}

#[test]
fn test_empty_body() {
    // A closing boundary as the very first line means an empty body.
    let mut m = Multipart::new(Some(b"multipart/mixed; boundary=bnd"));
    m.feed(b"--bnd--\r\n");
    match m.poll_next() {
        OuterPoll::Eof => (),
        _ => unreachable!(),
    }
}

#[test]
fn test_zero_length_part() {
    let body: &[u8] = b"--bnd\r\n\
        Content-Length: 0\r\n\r\n\
        \r\n--bnd--\r\n";
    let mut m = Multipart::new(Some(b"multipart/mixed; boundary=bnd"));
    m.feed(body);
    let f = expect_field(&mut m);
    assert_eq!(whole_body(&mut m, &f), Vec::<u8>::new());
    m.release_part(f);
    match m.poll_next() {
        OuterPoll::Eof => (),
        _ => unreachable!(),
    }
}

#[test]
fn test_huge_declared_length() {
    // The largest representable declared length parses; the truncated
    // body then fails with Incomplete.
    let body: &[u8] = b"--bnd\r\n\
        Content-Length: 18446744073709551615\r\n\r\n\
        x";
    let mut m = Multipart::new(Some(b"multipart/mixed; boundary=bnd"));
    m.feed(body);
    m.feed_eof();
    let f = expect_field(&mut m);
    match m.poll_part(&f) {
        PartRead::Chunk(c) => assert_eq!(c, b"x".to_vec()),
        _ => unreachable!(),
    }
    match m.poll_part(&f) {
        PartRead::Failed(MultipartError::Incomplete) => (),
        _ => unreachable!(),
    }
}
