use rizzler::lsp::codec::{decode_frame, encode_frame, find_subslice, FrameErrorKind, LspCodec};

#[test]
fn round_trip_single_frame() {
    let mut codec = LspCodec;
    let mut buf: Vec<u8> = Vec::new();
    let body = br#"{"jsonrpc":"2.0","id":1,"method":"initialize"}"#.to_vec();
    codec.encode(body.clone(), &mut buf);
    let decoded = codec.decode(&mut buf).unwrap().expect("frame should decode");
    assert_eq!(decoded, body);
    assert!(buf.is_empty());
}

#[test]
fn handles_split_frames() {
    let mut codec = LspCodec;
    let mut buf: Vec<u8> = Vec::new();
    let body = br#"{"a":1}"#;
    buf.extend_from_slice(b"Content-Length: 7\r\n\r\n");
    // Body arrives in two reads.
    assert!(codec.decode(&mut buf).unwrap().is_none());
    buf.extend_from_slice(&body[..3]);
    assert!(codec.decode(&mut buf).unwrap().is_none());
    buf.extend_from_slice(&body[3..]);
    let frame = codec.decode(&mut buf).unwrap().unwrap();
    assert_eq!(&frame, body);
}

#[test]
fn tolerates_content_type_header() {
    let mut codec = LspCodec;
    let mut buf: Vec<u8> = Vec::new();
    buf.extend_from_slice(
        b"Content-Length: 2\r\nContent-Type: application/vscode-jsonrpc; charset=utf-8\r\n\r\n{}",
    );
    let frame = codec.decode(&mut buf).unwrap().unwrap();
    assert_eq!(&frame, b"{}");
}

#[test]
fn encode_writes_exact_header() {
    assert_eq!(encode_frame(b"{}"), b"Content-Length: 2\r\n\r\n{}".to_vec());
    assert_eq!(encode_frame(b""), b"Content-Length: 0\r\n\r\n".to_vec());
    let big = vec![b'x'; 1234];
    let framed = encode_frame(&big);
    assert!(framed.starts_with(b"Content-Length: 1234\r\n\r\n"));
    assert_eq!(framed.len(), 24 + 1234);
}

#[test]
fn roundtrip_keeps_following_frames_in_buffer() {
    let mut codec = LspCodec;
    let mut buf: Vec<u8> = Vec::new();
    codec.encode(b"first".to_vec(), &mut buf);
    codec.encode(b"second".to_vec(), &mut buf);
    assert_eq!(codec.decode(&mut buf).unwrap().unwrap(), b"first".to_vec());
    assert_eq!(buf, b"Content-Length: 6\r\n\r\nsecond".to_vec());
    assert_eq!(codec.decode(&mut buf).unwrap().unwrap(), b"second".to_vec());
    assert!(buf.is_empty());
    assert!(codec.decode(&mut buf).unwrap().is_none());
}

#[test]
fn every_prefix_of_a_frame_waits() {
    let frame = encode_frame(b"hello");
    for k in 0..frame.len() {
        assert_eq!(decode_frame(&frame[..k]).unwrap(), None, "prefix {k}");
    }
    assert_eq!(decode_frame(&frame).unwrap(), Some((b"hello".to_vec(), frame.len())));
}

#[test]
fn header_name_is_case_insensitive_and_value_trimmed() {
    let (body, used) = decode_frame(b"content-LENGTH:   3 \r\n\r\nabcdef").unwrap().unwrap();
    assert_eq!(body, b"abc".to_vec());
    assert_eq!(used, 27);
}

#[test]
fn last_content_length_wins() {
    let (body, _) = decode_frame(b"Content-Length: 1\r\nContent-Length: 2\r\n\r\nxy").unwrap().unwrap();
    assert_eq!(body, b"xy".to_vec());
}

#[test]
fn non_utf8_header_is_an_error() {
    let e = decode_frame(b"Content-Length: 1\xff\r\n\r\nx").unwrap_err();
    assert_eq!(e.kind, FrameErrorKind::NonUtf8Header);
}

#[test]
fn line_without_colon_is_malformed() {
    let e = decode_frame(b"Content-Length 1\r\n\r\nx").unwrap_err();
    assert_eq!(e.kind, FrameErrorKind::MalformedHeaderLine);
    assert_eq!(e.detail, "Content-Length 1");
}

#[test]
fn bad_length_is_an_error() {
    let e = decode_frame(b"Content-Length: 1x\r\n\r\nx").unwrap_err();
    assert_eq!(e.kind, FrameErrorKind::BadContentLength);
    assert_eq!(e.detail, " 1x");
    let e = decode_frame(b"Content-Length: -1\r\n\r\nx").unwrap_err();
    assert_eq!(e.kind, FrameErrorKind::BadContentLength);
}

#[test]
fn plus_sign_is_accepted_in_length() {
    let (body, _) = decode_frame(b"Content-Length: +1\r\n\r\nx").unwrap().unwrap();
    assert_eq!(body, b"x".to_vec());
}

#[test]
fn missing_length_is_an_error() {
    let e = decode_frame(b"Content-Type: text\r\n\r\nx").unwrap_err();
    assert_eq!(e.kind, FrameErrorKind::MissingContentLength);
}

#[test]
fn decode_error_leaves_buffer_alone() {
    let mut codec = LspCodec;
    let mut buf = b"oops\r\n\r\n".to_vec();
    assert!(codec.decode(&mut buf).is_err());
    assert_eq!(buf, b"oops\r\n\r\n".to_vec());
}

#[test]
fn find_subslice_finds_first_occurrence() {
    assert_eq!(find_subslice(b"abcabc", b"bc"), Some(1));
    assert_eq!(find_subslice(b"abc", b""), None);
    assert_eq!(find_subslice(b"ab", b"abc"), None);
    assert_eq!(find_subslice(b"abc", b"x"), None);
}
