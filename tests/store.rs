use eight::error::Error;
use eight::memory::Storage;
use eight::number::{format_uint, parse_uint};

#[test]
fn test_storage() {
    let mut storage = Storage::new();
    storage.set("test".to_string(), "test value".to_string()).unwrap();
    let value = storage.get("test".to_string()).unwrap();
    assert_eq!(value, "test value".to_string());
    storage.flush().unwrap();
}

#[test]
fn eight_test_simple_storage() {
    let mut storage = Storage::new();
    storage.set("test".to_string(), "test value".to_string()).unwrap();
    let value = storage.get("test".to_string()).unwrap();
    assert_eq!(value, "test value".to_string());
    storage.flush().unwrap();
}

#[test]
fn test_storage_simple_storage() {
    let mut storage = Storage::new();
    storage.set("test".to_string(), "test value".to_string()).unwrap();
    let value = storage.get("test".to_string()).unwrap();
    assert_eq!(value, "test value".to_string());
    storage.flush().unwrap();
}

#[test]
fn set_then_get_returns_value() {
    let mut storage = Storage::new();
    assert_eq!(storage.set("bob".to_string(), "sid".to_string()), Ok(()));
    assert_eq!(storage.get("bob".to_string()), Ok("sid".to_string()));
    assert_eq!(storage.set("bob".to_string(), "other".to_string()), Ok(()));
    assert_eq!(storage.get("bob".to_string()), Ok("other".to_string()));
}

#[test]
fn delete_then_absent() {
    let mut storage = Storage::new();
    storage.set("bob".to_string(), "sid".to_string()).unwrap();
    assert_eq!(storage.delete("bob".to_string()), Ok(()));
    assert_eq!(storage.key_exists("bob".to_string()), Ok(false));
    assert_eq!(storage.get("bob".to_string()), Err(Error::GetKeyFail));
    assert_eq!(storage.delete("bob".to_string()), Err(Error::DeleteKeyFail));
}

#[test]
fn invalid_keys_are_refused() {
    let mut storage = Storage::new();
    assert_eq!(storage.set("a".to_string(), "v".to_string()), Err(Error::KeyTooShort));
    assert_eq!(storage.set("a!".to_string(), "v".to_string()), Err(Error::KeyWrongFormat));
    assert_eq!(storage.get("a!".to_string()), Err(Error::KeyWrongFormat));
    assert_eq!(storage.key_exists("x".to_string()), Err(Error::KeyTooShort));
}

#[test]
fn counters_add_and_subtract() {
    let mut storage = Storage::new();
    storage.set("count".to_string(), "10".to_string()).unwrap();
    assert_eq!(storage.increment("count".to_string(), 10), Ok(20));
    assert_eq!(storage.get("count".to_string()), Ok("20".to_string()));
    assert_eq!(storage.decrement("count".to_string(), 5), Ok(15));
    assert_eq!(storage.get("count".to_string()), Ok("15".to_string()));
    assert_eq!(storage.decrement("count".to_string(), 16), Err(Error::UIntParseFail));
    assert_eq!(storage.get("count".to_string()), Ok("15".to_string()));
    storage.set("word".to_string(), "ten".to_string()).unwrap();
    assert_eq!(storage.increment("word".to_string(), 1), Err(Error::UIntParseFail));
    assert_eq!(storage.increment("none".to_string(), 1), Err(Error::GetKeyFail));
    storage.set("big".to_string(), usize::MAX.to_string()).unwrap();
    assert_eq!(storage.increment("big".to_string(), 1), Err(Error::UIntParseFail));
    storage.set("plus".to_string(), "+007".to_string()).unwrap();
    assert_eq!(storage.increment("plus".to_string(), 3), Ok(10));
    assert_eq!(storage.get("plus".to_string()), Ok("10".to_string()));
}

#[test]
fn prefix_search_finds_each_key_once() {
    let mut storage = Storage::new();
    for i in 1..=99 {
        storage.set(format!("result{}", i), "x".to_string()).unwrap();
    }
    storage.set("other".to_string(), "x".to_string()).unwrap();
    let mut found = storage.search("res".to_string()).unwrap();
    assert_eq!(found.len(), 99);
    found.sort();
    let mut expected: Vec<String> = (1..=99).map(|i| format!("result{}", i)).collect();
    expected.sort();
    assert_eq!(found, expected);
    assert_eq!(storage.search("".to_string()).unwrap().len(), 100);
    assert_eq!(storage.search("zz".to_string()).unwrap().len(), 0);
}

#[test]
fn flush_empties_store() {
    let mut storage = Storage::new();
    storage.set("bob".to_string(), "sid".to_string()).unwrap();
    assert_eq!(storage.flush(), Ok(()));
    assert_eq!(storage.key_exists("bob".to_string()), Ok(false));
    assert_eq!(storage.search("".to_string()).unwrap().len(), 0);
}

#[test]
fn decimal_text_round_trip() {
    assert_eq!(format_uint(0), "0");
    assert_eq!(format_uint(4052), "4052");
    assert_eq!(parse_uint("4052"), Some(4052));
    assert_eq!(parse_uint("+12"), Some(12));
    assert_eq!(parse_uint(""), None);
    assert_eq!(parse_uint("+"), None);
    assert_eq!(parse_uint("-1"), None);
    assert_eq!(parse_uint("1a"), None);
    assert_eq!(parse_uint(&usize::MAX.to_string()), Some(usize::MAX));
    assert_eq!(parse_uint("99999999999999999999999"), None);
    assert_eq!(parse_uint(&format_uint(123456789)), Some(123456789));
}
