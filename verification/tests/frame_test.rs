use lb_ext_sdk::frame::{
    check_frame_len, decode_frame, encode_frame, frame_header, parse_content_length, FrameError,
    HeaderScanner, ScanStep, MAX_FRAME, MAX_HEADER,
};
use lb_ext_sdk::text::IntErrorKind;

#[test]
fn parses_case_insensitive_header() {
    assert_eq!(
        parse_content_length(b"content-length: 42\r\n\r\n").unwrap(),
        42
    );
}

#[test]
fn header_is_content_length_then_blank_line() {
    assert_eq!(frame_header(8), b"Content-Length: 8\r\n\r\n".to_vec());
    assert_eq!(frame_header(0), b"Content-Length: 0\r\n\r\n".to_vec());
    assert_eq!(frame_header(1234567), b"Content-Length: 1234567\r\n\r\n".to_vec());
}

#[test]
fn frame_round_trips() {
    let payload = br#"{"hi":1}"#;
    let frame = encode_frame(payload);
    assert_eq!(frame, b"Content-Length: 8\r\n\r\n{\"hi\":1}".to_vec());
    let (body, used) = decode_frame(&frame).unwrap();
    assert_eq!(body, payload.to_vec());
    assert_eq!(used, frame.len());
}

#[test]
fn two_frames_read_in_sequence() {
    let mut stream = encode_frame(b"one");
    stream.extend(encode_frame(b"two"));
    let (first, used) = decode_frame(&stream).unwrap();
    assert_eq!(first, b"one".to_vec());
    let (second, used2) = decode_frame(&stream[used..]).unwrap();
    assert_eq!(second, b"two".to_vec());
    assert_eq!(used + used2, stream.len());
}

#[test]
fn empty_payload_round_trips() {
    let frame = encode_frame(b"");
    assert_eq!(decode_frame(&frame).unwrap(), (Vec::new(), frame.len()));
}

#[test]
fn empty_stream_is_closed() {
    assert_eq!(decode_frame(b""), Err(FrameError::Closed));
    assert_eq!(decode_frame(b"Content-Length: 3\r\n"), Err(FrameError::Closed));
}

#[test]
fn short_body_is_truncated() {
    assert_eq!(
        decode_frame(b"Content-Length: 5\r\n\r\nabc"),
        Err(FrameError::Truncated)
    );
}

#[test]
fn over_large_frame_is_refused() {
    let header = frame_header(MAX_FRAME + 1);
    assert_eq!(decode_frame(&header), Err(FrameError::TooLarge(MAX_FRAME + 1)));
    assert_eq!(check_frame_len(MAX_FRAME), Ok(MAX_FRAME));
    assert_eq!(
        check_frame_len(MAX_FRAME + 1),
        Err(FrameError::TooLarge(MAX_FRAME + 1))
    );
}

#[test]
fn header_without_blank_line_is_too_long() {
    let junk = vec![b'a'; MAX_HEADER + 10];
    assert_eq!(decode_frame(&junk), Err(FrameError::HeaderTooLong));
    // A header of exactly MAX_HEADER + 1 bytes that ends the block is still read.
    let mut h = b"Content-Length: 0".to_vec();
    h.extend(vec![b' '; MAX_HEADER + 1 - 4 - h.len()]);
    h.extend(b"\r\n\r\n");
    assert_eq!(h.len(), MAX_HEADER + 1);
    assert_eq!(decode_frame(&h), Ok((Vec::new(), MAX_HEADER + 1)));
}

#[test]
fn missing_and_bad_content_length() {
    assert_eq!(
        parse_content_length(b"Content-Type: json\r\n\r\n"),
        Err(FrameError::MissingContentLength)
    );
    assert_eq!(
        parse_content_length(b"Content-Length: x1\r\n\r\n"),
        Err(FrameError::BadContentLength(IntErrorKind::InvalidDigit))
    );
    assert_eq!(
        parse_content_length(b"Content-Length:   \r\n\r\n"),
        Err(FrameError::BadContentLength(IntErrorKind::Empty))
    );
    assert_eq!(
        parse_content_length(b"Content-Length: 99999999999999999999999\r\n\r\n"),
        Err(FrameError::BadContentLength(IntErrorKind::PosOverflow))
    );
    assert_eq!(
        parse_content_length(b"Content-Length: -1\r\n\r\n"),
        Err(FrameError::BadContentLength(IntErrorKind::InvalidDigit))
    );
}

#[test]
fn header_parsing_follows_str_rules() {
    // A leading `+` is accepted, the name and value are trimmed, other lines are skipped.
    assert_eq!(
        parse_content_length(b"X-Other: 1\r\n  CONTENT-length \t:\t+17 \r\n\r\n"),
        Ok(17)
    );
    // The first matching line decides.
    assert_eq!(
        parse_content_length(b"content-length: 3\r\ncontent-length: 4\r\n\r\n"),
        Ok(3)
    );
    // Unicode whitespace (U+3000) is trimmed too.
    assert_eq!(
        parse_content_length("\u{3000}content-length:\u{a0}5\r\n\r\n".as_bytes()),
        Ok(5)
    );
    // The value stops at the line's CR LF, not at a lone LF.
    assert_eq!(
        parse_content_length(b"content-length: 5\nx\r\n\r\n"),
        Err(FrameError::BadContentLength(IntErrorKind::InvalidDigit))
    );
}

#[test]
fn non_utf8_header_is_refused() {
    let e = parse_content_length(b"Content-Length: 1\xff\r\n\r\n").unwrap_err();
    assert_eq!(e, FrameError::HeaderNotUtf8 { valid_up_to: 17, error_len: Some(1) });
    assert_eq!(
        e.message(),
        "header not utf8: invalid utf-8 sequence of 1 bytes from index 17"
    );
    let e = parse_content_length(b"ab\xe2\x82").unwrap_err();
    assert_eq!(e, FrameError::HeaderNotUtf8 { valid_up_to: 2, error_len: None });
    assert_eq!(e.message(), "header not utf8: incomplete utf-8 byte sequence from index 2");
}

#[test]
fn scanner_finishes_at_the_blank_line() {
    let mut s = HeaderScanner::new();
    let header = b"Content-Length: 2\r\n\r\n";
    for (i, b) in header.iter().enumerate() {
        let step = s.push(*b);
        if i + 1 < header.len() {
            assert_eq!(step, ScanStep::NeedMore);
        } else {
            assert_eq!(step, ScanStep::Done(Ok(2)));
        }
    }
}

#[test]
fn error_messages() {
    assert_eq!(FrameError::Closed.message(), "host closed stream");
    assert_eq!(FrameError::HeaderTooLong.message(), "header too long");
    assert_eq!(
        FrameError::MissingContentLength.message(),
        "missing Content-Length header"
    );
    assert_eq!(
        FrameError::TooLarge(20000000).message(),
        "frame too large: 20000000 > 16777216"
    );
    assert_eq!(
        FrameError::BadContentLength(IntErrorKind::InvalidDigit).message(),
        "bad content-length: invalid digit found in string"
    );
    assert_eq!(
        FrameError::BadContentLength(IntErrorKind::Empty).message(),
        "bad content-length: cannot parse integer from empty string"
    );
    assert_eq!(FrameError::Truncated.message(), "early eof");
}
