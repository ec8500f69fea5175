use bytes::BytesMut;
use simple_redis::{
    BulkString, RespArray, RespError, RespFrame, RespNullArray, RespNullBulkString, SimpleError,
    SimpleString,
};

#[test]
fn test_array_encode() {
    let frame: RespFrame = RespArray::new(vec![
        SimpleString::new("set".to_string()).into(),
        BulkString::new("hello".as_bytes().to_vec()).into(),
        BulkString::new("world".as_bytes().to_vec()).into(),
    ])
    .into();
    assert_eq!(frame.encode(), b"*3\r\n+set\r\n$5\r\nhello\r\n$5\r\nworld\r\n");
}

#[test]
fn test_null_array_encode() {
    let frame: RespFrame = RespNullArray.into();
    assert_eq!(frame.encode(), b"*-1\r\n");
}

#[test]
fn test_null_array_decode() {
    let mut buf = BytesMut::new();
    buf.extend_from_slice(b"*-1\r\n");
    let frame = RespNullArray::decode(&mut buf).unwrap();
    assert_eq!(frame, RespNullArray);
}

#[test]
fn test_array_decode() {
    let mut buf = BytesMut::new();
    buf.extend_from_slice(b"*2\r\n$3\r\nset\r\n$5\r\nhello\r\n");

    let frame = RespArray::decode(&mut buf).unwrap();
    assert_eq!(frame, RespArray::new(vec![b"set".into(), b"hello".into()]));

    buf.extend_from_slice(b"*2\r\n$3\r\nset\r\n");
    let ret = RespArray::decode(&mut buf);
    assert_eq!(ret.unwrap_err(), RespError::NotComplete);

    buf.extend_from_slice(b"$5\r\nhello\r\n");
    let frame = RespArray::decode(&mut buf).unwrap();
    assert_eq!(frame, RespArray::new(vec![b"set".into(), b"hello".into()]));
}

fn nested() -> RespArray {
    RespArray::new(vec![
        RespArray::new(vec![
            SimpleString::new("a".to_string()).into(),
            RespNullBulkString.into(),
            RespArray::new(Vec::new()).into(),
        ])
        .into(),
        RespNullArray.into(),
        SimpleError::new("ERR".to_string()).into(),
        BulkString::new(b"\r\n".to_vec()).into(),
    ])
}

const NESTED: &[u8] = b"*4\r\n*3\r\n+a\r\n$-1\r\n*0\r\n*-1\r\n-ERR\r\n$2\r\n\r\n\r\n";

#[test]
fn array_nested_encode() {
    assert_eq!(nested().encode(), NESTED);
    let mut out = b"+OK\r\n".to_vec();
    nested().encode_to(&mut out);
    assert_eq!(&out[..5], b"+OK\r\n");
    assert_eq!(&out[5..], NESTED);
}

#[test]
fn array_nested_decode() {
    let mut buf = BytesMut::new();
    buf.extend_from_slice(NESTED);
    buf.extend_from_slice(b"+next\r\n");
    assert_eq!(RespArray::expect_length(&buf[..]), Ok(NESTED.len()));
    let frame = RespArray::decode(&mut buf).unwrap();
    assert_eq!(frame, nested());
    assert_eq!(&buf[..], b"+next\r\n");
}

#[test]
fn array_every_proper_prefix_is_incomplete_and_untouched() {
    for cut in 0..NESTED.len() {
        let mut buf = BytesMut::new();
        buf.extend_from_slice(&NESTED[..cut]);
        assert_eq!(RespArray::decode(&mut buf).unwrap_err(), RespError::NotComplete);
        assert_eq!(&buf[..], &NESTED[..cut]);
        assert_eq!(RespArray::expect_length(&NESTED[..cut]), Err(RespError::NotComplete));
        buf.extend_from_slice(&NESTED[cut..]);
        assert_eq!(RespArray::decode(&mut buf).unwrap(), nested());
        assert!(buf.is_empty());
    }
}

#[test]
fn array_empty() {
    let mut buf = BytesMut::new();
    buf.extend_from_slice(b"*0\r\n");
    let frame = RespArray::decode(&mut buf).unwrap();
    assert_eq!(frame, RespArray::new(Vec::new()));
    assert!(buf.is_empty());
    assert_eq!(RespArray::new(Vec::new()).encode(), b"*0\r\n");
    assert_eq!(RespArray::expect_length(b"*0\r\n"), Ok(4));
}

#[test]
fn array_malformed_element_leaves_buffer_untouched() {
    let bytes = b"*2\r\n+ok\r\n!what\r\n";
    let mut buf = BytesMut::new();
    buf.extend_from_slice(bytes);
    assert_eq!(RespArray::decode(&mut buf).unwrap_err(), RespError::InvalidFrameType);
    assert_eq!(&buf[..], bytes);
    assert_eq!(RespArray::expect_length(bytes), Err(RespError::InvalidFrameType));
}

#[test]
fn array_malformed_element_deep_inside() {
    let bytes = b"*2\r\n*1\r\n$3\r\nabc\r\n*1\r\n$x\r\n";
    let mut buf = BytesMut::new();
    buf.extend_from_slice(bytes);
    assert_eq!(RespArray::decode(&mut buf).unwrap_err(), RespError::ParseIntError);
    assert_eq!(&buf[..], bytes);
}

#[test]
fn array_incomplete_element_before_malformed_one_is_incomplete() {
    let bytes = b"*2\r\n$5\r\nab";
    let mut buf = BytesMut::new();
    buf.extend_from_slice(bytes);
    assert_eq!(RespArray::decode(&mut buf).unwrap_err(), RespError::NotComplete);
    assert_eq!(&buf[..], bytes);
}

#[test]
fn array_malformed_headers() {
    let cases: [(&[u8], RespError); 6] = [
        (b"$2\r\nab\r\n", RespError::InvalidFrameType),
        (b"*x\r\n", RespError::ParseIntError),
        (b"*\r\n", RespError::ParseIntError),
        (b"*-1\r\n", RespError::InvalidFrameLength(-1)),
        (b"*-2\r\n", RespError::InvalidFrameLength(-2)),
        (b"*1.5\r\n", RespError::ParseIntError),
    ];
    for (bytes, error) in cases {
        let mut buf = BytesMut::new();
        buf.extend_from_slice(bytes);
        assert_eq!(RespArray::decode(&mut buf).unwrap_err(), error);
        assert_eq!(&buf[..], bytes);
        assert_eq!(RespArray::expect_length(bytes).unwrap_err(), error);
    }
}

#[test]
fn array_huge_count_is_incomplete() {
    let bytes = format!("*{}\r\n+a\r\n", isize::MAX).into_bytes();
    let mut buf = BytesMut::new();
    buf.extend_from_slice(&bytes);
    assert_eq!(RespArray::decode(&mut buf).unwrap_err(), RespError::NotComplete);
    assert_eq!(&buf[..], &bytes[..]);
}

#[test]
fn array_element_claiming_more_than_buffered_is_incomplete() {
    let bytes = format!("*2\r\n${}\r\nab", isize::MAX).into_bytes();
    assert_eq!(RespArray::expect_length(&bytes), Err(RespError::NotComplete));
    let bytes = b"*2\r\n$100\r\nab";
    assert_eq!(RespArray::expect_length(bytes), Err(RespError::NotComplete));
}

#[test]
fn null_array_incomplete_and_malformed() {
    let mut buf = BytesMut::new();
    buf.extend_from_slice(b"*-1");
    assert_eq!(RespNullArray::decode(&mut buf).unwrap_err(), RespError::NotComplete);
    assert_eq!(&buf[..], b"*-1");

    let mut buf = BytesMut::new();
    buf.extend_from_slice(b"*2\r\n+a\r\n+b\r\n");
    assert_eq!(RespNullArray::decode(&mut buf).unwrap_err(), RespError::InvalidFrameType);
    assert_eq!(&buf[..], b"*2\r\n+a\r\n+b\r\n");
}

#[test]
fn null_array_length_and_encode() {
    assert_eq!(RespNullArray::expect_length(b""), Ok(5));
    assert_eq!(RespNullArray.encode(), b"*-1\r\n");
    let mut out = Vec::new();
    RespNullArray.encode_to(&mut out);
    assert_eq!(out, b"*-1\r\n");
    let mut buf = BytesMut::new();
    buf.extend_from_slice(b"*-1\r\n*0\r\n");
    RespNullArray::decode(&mut buf).unwrap();
    assert_eq!(&buf[..], b"*0\r\n");
}

#[test]
fn array_conversions() {
    let items: Vec<RespFrame> = vec![b"a".into(), b"b".into()];
    let array = RespArray::from(items.clone());
    assert_eq!(array, RespArray::new(items));
    assert_eq!(array.len(), 2);
    assert_eq!(array[1], RespFrame::BulkString(BulkString::new(b"b".to_vec())));
    assert_eq!(array.clone(), array);
    assert_eq!(nested().clone(), nested());
}
