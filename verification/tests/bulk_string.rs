use bytes::BytesMut;
use simple_redis::{BulkString, RespError, RespFrame, RespNullBulkString};

#[test]
fn test_bulk_string_decode() {
    let mut buf = BytesMut::new();
    buf.extend_from_slice(b"$6\r\nfoobar\r\n");
    let frame = BulkString::decode(&mut buf).unwrap();
    assert_eq!(frame, BulkString::new(b"foobar".to_vec()));

    buf.extend_from_slice(b"$5\r\nhello");

    let ret = BulkString::decode(&mut buf);
    assert_eq!(ret.unwrap_err(), RespError::NotComplete);

    buf.extend_from_slice(b"\r\n");
    let frame = BulkString::decode(&mut buf).unwrap();
    assert_eq!(frame, BulkString::new(b"hello".to_vec()));
}

#[test]
fn test_null_bulk_string_decode() {
    let mut buf = BytesMut::new();
    buf.extend_from_slice(b"$-1\r\n");
    let frame = RespNullBulkString::decode(&mut buf).unwrap();
    assert_eq!(frame, RespNullBulkString);
}

#[test]
fn test_bulk_string_encode() {
    let frame: RespFrame = BulkString::new("hello".as_bytes().to_vec()).into();
    assert_eq!(frame.encode(), b"$5\r\nhello\r\n");
}

#[test]
fn test_null_bulk_string_encode() {
    let frame: RespFrame = RespNullBulkString.into();
    assert_eq!(frame.encode(), b"$-1\r\n");
}

#[test]
fn bulk_string_decode_consumes_exactly_one_frame() {
    let mut buf = BytesMut::new();
    buf.extend_from_slice(b"$3\r\nabc\r\n$1\r\nz\r\n");
    let frame = BulkString::decode(&mut buf).unwrap();
    assert_eq!(frame, BulkString::new(b"abc".to_vec()));
    assert_eq!(&buf[..], b"$1\r\nz\r\n");
}

#[test]
fn bulk_string_incomplete_leaves_buffer_untouched() {
    for cut in [&b""[..], b"$", b"$5", b"$5\r", b"$5\r\n", b"$5\r\nhel", b"$5\r\nhello", b"$5\r\nhello\r"]
    {
        let mut buf = BytesMut::new();
        buf.extend_from_slice(cut);
        assert_eq!(BulkString::decode(&mut buf).unwrap_err(), RespError::NotComplete);
        assert_eq!(&buf[..], cut);
    }
}

#[test]
fn bulk_string_empty_payload() {
    let mut buf = BytesMut::new();
    buf.extend_from_slice(b"$0\r\n\r\n");
    let frame = BulkString::decode(&mut buf).unwrap();
    assert_eq!(frame, BulkString::new(Vec::new()));
    assert!(buf.is_empty());
    assert_eq!(BulkString::new(Vec::new()).encode(), b"$0\r\n\r\n");
}

#[test]
fn bulk_string_payload_is_raw_bytes() {
    let payload = vec![0u8, 13, 10, 255, 36, 42];
    let bytes = BulkString::new(payload.clone()).encode();
    assert_eq!(bytes, b"$6\r\n\x00\r\n\xff$*\r\n");
    let mut buf = BytesMut::new();
    buf.extend_from_slice(&bytes);
    assert_eq!(BulkString::decode(&mut buf).unwrap(), BulkString::new(payload));
    assert!(buf.is_empty());
}

#[test]
fn bulk_string_two_digit_length() {
    let payload = b"0123456789ab".to_vec();
    let bytes = BulkString::new(payload.clone()).encode();
    assert_eq!(bytes, b"$12\r\n0123456789ab\r\n");
    assert_eq!(BulkString::expect_length(&bytes), Ok(19));
}

#[test]
fn bulk_string_terminator_is_dropped_unread() {
    let mut buf = BytesMut::new();
    buf.extend_from_slice(b"$3\r\nabcXY+OK\r\n");
    let frame = BulkString::decode(&mut buf).unwrap();
    assert_eq!(frame, BulkString::new(b"abc".to_vec()));
    assert_eq!(&buf[..], b"+OK\r\n");
}

#[test]
fn bulk_string_malformed_headers() {
    let cases: [(&[u8], RespError); 7] = [
        (b"+3\r\nabc\r\n", RespError::InvalidFrameType),
        (b"$abc\r\nabc\r\n", RespError::ParseIntError),
        (b"$\r\nabc\r\n", RespError::ParseIntError),
        (b"$3 \r\nabc\r\n", RespError::ParseIntError),
        (b"$99999999999999999999999999\r\n", RespError::ParseIntError),
        (b"$-1\r\n", RespError::InvalidFrameLength(-1)),
        (b"$-5\r\nabc\r\n", RespError::InvalidFrameLength(-5)),
    ];
    for (bytes, error) in cases {
        let mut buf = BytesMut::new();
        buf.extend_from_slice(bytes);
        assert_eq!(BulkString::decode(&mut buf).unwrap_err(), error);
        assert_eq!(&buf[..], bytes);
        assert_eq!(BulkString::expect_length(bytes).unwrap_err(), error);
    }
}

#[test]
fn bulk_string_header_accepts_sign_and_leading_zeros() {
    let mut buf = BytesMut::new();
    buf.extend_from_slice(b"$+03\r\nabc\r\n");
    assert_eq!(BulkString::decode(&mut buf).unwrap(), BulkString::new(b"abc".to_vec()));
    assert!(buf.is_empty());
}

#[test]
fn bulk_string_expect_length_needs_the_header_only() {
    assert_eq!(BulkString::expect_length(b"$5\r\nhe"), Ok(11));
    assert_eq!(BulkString::expect_length(b"$5\r\nhello\r\n"), Ok(11));
    assert_eq!(BulkString::expect_length(b"$0\r\n"), Ok(6));
    assert_eq!(BulkString::expect_length(b"$5\r"), Err(RespError::NotComplete));
}

#[test]
fn bulk_string_expect_length_with_the_largest_length() {
    let header = format!("${}\r\n", isize::MAX);
    let mut bytes = header.clone().into_bytes();
    assert_eq!(
        BulkString::expect_length(&bytes),
        Ok(header.len() + isize::MAX as usize + 2)
    );
    bytes = format!("${}\r\n", isize::MAX as u128 + 1).into_bytes();
    assert_eq!(BulkString::expect_length(&bytes), Err(RespError::ParseIntError));
    let mut buf = BytesMut::new();
    buf.extend_from_slice(header.as_bytes());
    assert_eq!(BulkString::decode(&mut buf).unwrap_err(), RespError::NotComplete);
}

#[test]
fn null_bulk_string_incomplete_and_malformed() {
    let mut buf = BytesMut::new();
    buf.extend_from_slice(b"$-1\r");
    assert_eq!(RespNullBulkString::decode(&mut buf).unwrap_err(), RespError::NotComplete);
    assert_eq!(&buf[..], b"$-1\r");

    let mut buf = BytesMut::new();
    buf.extend_from_slice(b"$5");
    assert_eq!(RespNullBulkString::decode(&mut buf).unwrap_err(), RespError::NotComplete);

    let mut buf = BytesMut::new();
    buf.extend_from_slice(b"$5\r\nhello\r\n");
    assert_eq!(RespNullBulkString::decode(&mut buf).unwrap_err(), RespError::InvalidFrameType);
    assert_eq!(&buf[..], b"$5\r\nhello\r\n");
}

#[test]
fn null_bulk_string_decode_leaves_what_follows() {
    let mut buf = BytesMut::new();
    buf.extend_from_slice(b"$-1\r\n+OK\r\n");
    RespNullBulkString::decode(&mut buf).unwrap();
    assert_eq!(&buf[..], b"+OK\r\n");
}

#[test]
fn null_bulk_string_length_and_encode() {
    assert_eq!(RespNullBulkString::expect_length(b""), Ok(5));
    assert_eq!(RespNullBulkString::expect_length(b"$-1\r\n"), Ok(5));
    assert_eq!(RespNullBulkString.encode(), b"$-1\r\n");
    let mut out = b"+OK\r\n".to_vec();
    RespNullBulkString.encode_to(&mut out);
    assert_eq!(out, b"+OK\r\n$-1\r\n");
}

#[test]
fn bulk_string_conversions() {
    assert_eq!(BulkString::from("hello"), BulkString::new(b"hello".to_vec()));
    assert_eq!(BulkString::from(&b"hello"[..]), BulkString::new(b"hello".to_vec()));
    assert_eq!(BulkString::from(b"hello"), BulkString::new(b"hello".to_vec()));
    let frame = BulkString::from("h\u{e9}");
    assert_eq!(frame.as_ref(), &[104u8, 0xc3, 0xa9][..]);
    assert_eq!(frame.len(), 3);
    assert_eq!(frame.clone(), frame);
    let mut out = Vec::new();
    frame.encode_to(&mut out);
    assert_eq!(out, b"$3\r\nh\xc3\xa9\r\n");
}
