use simple_redis::{Backend, BulkString, RespFrame, RespNullArray, SimpleString};

#[test]
fn backend_starts_empty() {
    let backend = Backend::new();
    assert_eq!(backend.get(&"key".to_string()), None);
    assert_eq!(backend.get(&String::new()), None);
}

#[test]
fn backend_gives_back_what_was_set() {
    let mut backend = Backend::new();
    let value = RespFrame::BulkString(BulkString::new(b"value".to_vec()));
    backend.set("key".to_string(), value.clone());
    assert_eq!(backend.get(&"key".to_string()), Some(value));
    assert_eq!(backend.get(&"Key".to_string()), None);
    assert_eq!(backend.get(&"ke".to_string()), None);
}

#[test]
fn backend_last_write_wins() {
    let mut backend = Backend::new();
    let one = RespFrame::SimpleString(SimpleString::new("one".to_string()));
    let two = RespFrame::NullArray(RespNullArray);
    let three = RespFrame::BulkString(BulkString::new(b"three".to_vec()));
    backend.set("a".to_string(), one.clone());
    backend.set("b".to_string(), two.clone());
    backend.set("a".to_string(), three.clone());
    backend.set(String::new(), one.clone());
    assert_eq!(backend.get(&"a".to_string()), Some(three.clone()));
    assert_eq!(backend.get(&"b".to_string()), Some(two));
    assert_eq!(backend.get(&String::new()), Some(one.clone()));
    backend.set("b".to_string(), one.clone());
    assert_eq!(backend.get(&"a".to_string()), Some(three));
    assert_eq!(backend.get(&"b".to_string()), Some(one));
}
