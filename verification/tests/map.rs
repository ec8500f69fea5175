use bytes::BytesMut;
use simple_redis::{
    eq_ignore_case, extract_args, resp_ok, validate_command, Backend, BulkString, Command,
    CommandError, Get, RespArray, RespFrame, RespNullBulkString, SetCmd, SimpleString,
};

#[test]
fn test_get_from_resp_array() {
    let mut buf = BytesMut::new();
    buf.extend_from_slice(b"*2\r\n$3\r\nGET\r\n$3\r\nkey\r\n");
    let frame = RespArray::decode(&mut buf).unwrap();
    let result: Get = Get::try_from(frame).unwrap();
    assert_eq!(result.key, "key");
}

#[test]
fn test_set_from_resp_array() {
    let mut buf = BytesMut::new();
    buf.extend_from_slice(b"*3\r\n$3\r\nSET\r\n$3\r\nkey\r\n$5\r\nvalue\r\n");
    let frame = RespArray::decode(&mut buf).unwrap();
    let result: SetCmd = frame.try_into().unwrap();
    println!("{:#?}", result);
    assert_eq!(result.key, "key");
    assert_eq!(result.value, RespFrame::BulkString(b"value".into()));
}

#[test]
fn test_set_get_command() {
    let mut backend = Backend::new();
    let cmd = SetCmd {
        key: "key".to_string(),
        value: RespFrame::BulkString(b"value".into()),
    };
    let result = cmd.execute(&mut backend);
    assert_eq!(result, resp_ok());

    let cmd = Get { key: "key".to_string() };
    let result = cmd.execute(&backend);

    assert_eq!(result, RespFrame::BulkString(b"value".into()));
}

fn array_of(items: &[&[u8]]) -> RespArray {
    RespArray::new(
        items.iter().map(|item| RespFrame::BulkString(BulkString::new(item.to_vec()))).collect(),
    )
}

fn command_from(bytes: &[u8]) -> Result<Command, CommandError> {
    let mut buf = BytesMut::new();
    buf.extend_from_slice(bytes);
    let frame = RespArray::decode(&mut buf).unwrap();
    assert!(buf.is_empty());
    Command::try_from(frame)
}

#[test]
fn get_on_empty_backend_replies_null() {
    let mut backend = Backend::new();
    let command = command_from(b"*2\r\n$3\r\nGET\r\n$3\r\nkey\r\n").unwrap();
    assert_eq!(command, Command::Get(Get { key: "key".to_string() }));
    let reply = command.execute(&mut backend);
    assert_eq!(reply, RespFrame::NullBulkString(RespNullBulkString));
    assert_eq!(reply.encode(), b"$-1\r\n");
}

#[test]
fn set_replies_ok_and_get_finds_the_value() {
    let mut backend = Backend::new();
    let command = command_from(b"*3\r\n$3\r\nSET\r\n$3\r\nkey\r\n$5\r\nvalue\r\n").unwrap();
    assert_eq!(
        command,
        Command::SetCmd(SetCmd {
            key: "key".to_string(),
            value: RespFrame::BulkString(BulkString::new(b"value".to_vec())),
        })
    );
    let reply = command.execute(&mut backend);
    assert_eq!(reply.encode(), b"+OK\r\n");
    let reply = command_from(b"*2\r\n$3\r\nGET\r\n$3\r\nkey\r\n").unwrap().execute(&mut backend);
    assert_eq!(reply, RespFrame::BulkString(BulkString::new(b"value".to_vec())));
}

#[test]
fn set_overwrites_and_keeps_other_keys() {
    let mut backend = Backend::new();
    let first = RespFrame::SimpleString(SimpleString::new("one".to_string()));
    let second = RespFrame::Array(array_of(&[b"two"]));
    SetCmd { key: "a".to_string(), value: first.clone() }.execute(&mut backend);
    SetCmd { key: "b".to_string(), value: first.clone() }.execute(&mut backend);
    SetCmd { key: "a".to_string(), value: second.clone() }.execute(&mut backend);
    assert_eq!(Get { key: "a".to_string() }.execute(&backend), second);
    assert_eq!(Get { key: "b".to_string() }.execute(&backend), first);
    assert_eq!(
        Get { key: "c".to_string() }.execute(&backend),
        RespFrame::NullBulkString(RespNullBulkString)
    );
}

#[test]
fn resp_ok_is_the_simple_string_ok() {
    assert_eq!(resp_ok(), RespFrame::SimpleString(SimpleString::new("OK".to_string())));
    assert_eq!(resp_ok().encode(), b"+OK\r\n");
}

#[test]
fn get_takes_exactly_one_key() {
    assert_eq!(Get::try_from(array_of(&[b"get"])), Err(CommandError::InvalidArgument));
    assert_eq!(Get::try_from(array_of(&[b"get", b"a", b"b"])), Err(CommandError::InvalidArgument));
    assert_eq!(Get::try_from(array_of(&[])), Err(CommandError::InvalidArgument));
    assert_eq!(Get::try_from(array_of(&[b"get", b"a"])), Ok(Get { key: "a".to_string() }));
    assert_eq!(Command::try_from(array_of(&[b"get"])), Err(CommandError::InvalidArgument));
    assert_eq!(
        Command::try_from(array_of(&[b"get", b"a", b"b"])),
        Err(CommandError::InvalidArgument)
    );
}

#[test]
fn set_takes_exactly_a_key_and_a_value() {
    assert_eq!(SetCmd::try_from(array_of(&[b"set"])), Err(CommandError::InvalidArgument));
    assert_eq!(SetCmd::try_from(array_of(&[b"set", b"k"])), Err(CommandError::InvalidArgument));
    assert_eq!(
        SetCmd::try_from(array_of(&[b"set", b"k", b"v", b"x"])),
        Err(CommandError::InvalidArgument)
    );
    assert_eq!(Command::try_from(array_of(&[b"set", b"k"])), Err(CommandError::InvalidArgument));
    assert_eq!(
        SetCmd::try_from(array_of(&[b"set", b"k", b"v"])),
        Ok(SetCmd {
            key: "k".to_string(),
            value: RespFrame::BulkString(BulkString::new(b"v".to_vec())),
        })
    );
}

#[test]
fn command_name_is_matched_in_any_case() {
    for name in [&b"get"[..], b"GET", b"Get", b"gEt"] {
        assert_eq!(Get::try_from(array_of(&[name, b"k"])), Ok(Get { key: "k".to_string() }));
        assert!(matches!(Command::try_from(array_of(&[name, b"k"])), Ok(Command::Get(_))));
    }
    for name in [&b"set"[..], b"SET", b"sEt"] {
        assert!(matches!(Command::try_from(array_of(&[name, b"k", b"v"])), Ok(Command::SetCmd(_))));
    }
}

#[test]
fn wrong_name_is_an_invalid_command() {
    assert_eq!(Get::try_from(array_of(&[b"set", b"k"])), Err(CommandError::InvalidCommand));
    assert_eq!(Get::try_from(array_of(&[b"gets", b"k"])), Err(CommandError::InvalidCommand));
    assert_eq!(Get::try_from(array_of(&[b"ge", b"k"])), Err(CommandError::InvalidCommand));
    assert_eq!(Get::try_from(array_of(&[b"GE\x54\x00", b"k"])), Err(CommandError::InvalidCommand));
    assert_eq!(Get::try_from(array_of(&[b"\x47\x45\x74", b"k"])), Ok(Get { key: "k".to_string() }));
    assert_eq!(Get::try_from(array_of(&[b"g\x45\x54", b"k"])), Ok(Get { key: "k".to_string() }));
    assert_eq!(Get::try_from(array_of(&[b"\x07et", b"k"])), Err(CommandError::InvalidCommand));
    assert_eq!(Get::try_from(array_of(&[b"Get\x20", b"k"])), Err(CommandError::InvalidCommand));
    assert_eq!(
        SetCmd::try_from(array_of(&[b"get", b"k", b"v"])),
        Err(CommandError::InvalidCommand)
    );
    assert_eq!(Command::try_from(array_of(&[b"del", b"k"])), Err(CommandError::InvalidCommand));
    assert_eq!(Command::try_from(array_of(&[])), Err(CommandError::InvalidCommand));
}

#[test]
fn name_must_be_a_bulk_string() {
    let array = RespArray::new(vec![
        RespFrame::SimpleString(SimpleString::new("get".to_string())),
        RespFrame::BulkString(BulkString::new(b"k".to_vec())),
    ]);
    assert_eq!(Get::try_from(array.clone()), Err(CommandError::InvalidCommand));
    assert_eq!(Command::try_from(array), Err(CommandError::InvalidCommand));
}

#[test]
fn key_must_be_a_bulk_string() {
    let array = RespArray::new(vec![
        RespFrame::BulkString(BulkString::new(b"get".to_vec())),
        RespFrame::SimpleString(SimpleString::new("k".to_string())),
    ]);
    assert_eq!(Get::try_from(array), Err(CommandError::InvalidArgument));
    let array = RespArray::new(vec![
        RespFrame::BulkString(BulkString::new(b"set".to_vec())),
        RespFrame::NullBulkString(RespNullBulkString),
        RespFrame::BulkString(BulkString::new(b"v".to_vec())),
    ]);
    assert_eq!(SetCmd::try_from(array), Err(CommandError::InvalidArgument));
}

#[test]
fn key_must_be_utf8() {
    assert_eq!(Get::try_from(array_of(&[b"get", b"\xff\xfe"])), Err(CommandError::Utf8Error));
    assert_eq!(
        SetCmd::try_from(array_of(&[b"set", b"\xc3", b"v"])),
        Err(CommandError::Utf8Error)
    );
    assert_eq!(
        Get::try_from(array_of(&[b"get", "cl\u{e9}".as_bytes()])),
        Ok(Get { key: "cl\u{e9}".to_string() })
    );
}

#[test]
fn set_value_may_be_any_frame() {
    let value = RespFrame::Array(array_of(&[b"x", b"y"]));
    let array = RespArray::new(vec![
        RespFrame::BulkString(BulkString::new(b"set".to_vec())),
        RespFrame::BulkString(BulkString::new(b"k".to_vec())),
        value.clone(),
    ]);
    assert_eq!(SetCmd::try_from(array), Ok(SetCmd { key: "k".to_string(), value }));
}

#[test]
fn command_error_in_words() {
    assert_eq!(CommandError::InvalidCommand.message(), "Invalid command");
    assert_eq!(CommandError::InvalidArgument.message(), "Invalid argument");
    assert_eq!(CommandError::Utf8Error.message(), "Invalid key: not UTF-8");
}

#[test]
fn validate_command_looks_at_the_count_first() {
    let array = array_of(&[b"GeT", b"k"]);
    assert_eq!(validate_command(&array, b"get", 1), Ok(()));
    assert_eq!(validate_command(&array, b"GET", 1), Ok(()));
    assert_eq!(validate_command(&array, b"get", 0), Err(CommandError::InvalidArgument));
    assert_eq!(validate_command(&array, b"get", 2), Err(CommandError::InvalidArgument));
    assert_eq!(validate_command(&array, b"get", usize::MAX), Err(CommandError::InvalidArgument));
    assert_eq!(validate_command(&array, b"set", 1), Err(CommandError::InvalidCommand));
    assert_eq!(validate_command(&array, b"set", 2), Err(CommandError::InvalidArgument));
    assert_eq!(validate_command(&array_of(&[]), b"get", 0), Err(CommandError::InvalidArgument));
    assert_eq!(validate_command(&array_of(&[b"ping"]), b"ping", 0), Ok(()));
}

#[test]
fn extract_args_skips_the_name() {
    let frames = |items: &[&[u8]]| array_of(items).0;
    assert_eq!(extract_args(array_of(&[b"set", b"k", b"v"]), 1), frames(&[b"k", b"v"]));
    assert_eq!(extract_args(array_of(&[b"set", b"k", b"v"]), 0), frames(&[b"set", b"k", b"v"]));
    assert_eq!(extract_args(array_of(&[b"set", b"k", b"v"]), 3), frames(&[]));
    assert_eq!(extract_args(array_of(&[b"set", b"k", b"v"]), 4), frames(&[]));
    assert_eq!(extract_args(array_of(&[]), 1), frames(&[]));
}

#[test]
fn eq_ignore_case_folds_ascii_letters_only() {
    assert!(eq_ignore_case(b"get", b"GET"));
    assert!(eq_ignore_case(b"GeT", b"gEt"));
    assert!(eq_ignore_case(b"", b""));
    assert!(eq_ignore_case(b"a-z_09", b"A-Z_09"));
    assert!(!eq_ignore_case(b"get", b"ge"));
    assert!(!eq_ignore_case(b"get", b"set"));
    assert!(!eq_ignore_case(b"@", b"`"));
    assert!(!eq_ignore_case(b"[", b"{"));
    assert!(!eq_ignore_case(b"\xc9", b"\xe9"));
    for a in 0..=255u8 {
        for b in 0..=255u8 {
            assert_eq!(eq_ignore_case(&[a], &[b]), [a].eq_ignore_ascii_case(&[b]));
        }
    }
}
