use bytes::BytesMut;
use simple_redis::{RespError, RespFrame, SimpleError};

#[test]
fn test_error_encode() {
    let frame: RespFrame = SimpleError::new("Error message".to_string()).into();
    assert_eq!(frame.encode(), b"-Error message\r\n")
}

#[test]
fn test_simple_error_decode() {
    let mut buf = BytesMut::new();
    buf.extend_from_slice(b"-ERR invalid password\r\n");

    let frame = SimpleError::decode(&mut buf).unwrap();
    assert_eq!(frame, SimpleError::new("ERR invalid password".to_string()));
}

#[test]
fn simple_error_incomplete_and_malformed() {
    let mut buf = BytesMut::new();
    buf.extend_from_slice(b"-ERR");
    assert_eq!(SimpleError::decode(&mut buf).unwrap_err(), RespError::NotComplete);
    assert_eq!(&buf[..], b"-ERR");

    let mut buf = BytesMut::new();
    buf.extend_from_slice(b"+OK\r\n");
    assert_eq!(SimpleError::decode(&mut buf).unwrap_err(), RespError::InvalidFrameType);
    assert_eq!(&buf[..], b"+OK\r\n");
}

#[test]
fn simple_error_expect_length() {
    assert_eq!(SimpleError::expect_length(b"-ERR x\r\n"), Ok(8));
    assert_eq!(SimpleError::expect_length(b"-ERR x"), Err(RespError::NotComplete));
    assert_eq!(SimpleError::expect_length(b"+OK\r\n"), Err(RespError::InvalidFrameType));
}

#[test]
fn simple_error_lossy_text() {
    let mut buf = BytesMut::new();
    buf.extend_from_slice(b"-\xc3\r\n");
    let frame = SimpleError::decode(&mut buf).unwrap();
    assert_eq!(frame, SimpleError::new("\u{fffd}".to_string()));
}

#[test]
fn simple_error_from_str_clone_and_deref() {
    let frame = SimpleError::from("ERR");
    assert_eq!(frame.clone(), SimpleError::new("ERR".to_string()));
    assert_eq!(frame.as_str(), "ERR");
    let mut out = Vec::new();
    frame.encode_to(&mut out);
    assert_eq!(out, b"-ERR\r\n");
}
