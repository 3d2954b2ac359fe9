use ccmemcached::hash_map_storage::HashMapStorage;
use ccmemcached::storage::{Record, Storage, IMMEDIATELY_EXPIRES, NEVER_EXPIRES};
use ccmemcached::unix_timestamp_now;

#[test]
fn test_storage() {
    let mut storage = HashMapStorage::new();

    let key = "test".to_owned();
    let value = b"hello".to_vec();
    let mut record = Record::default();
    record.data = value.clone();

    storage.store(key.to_owned(), record.clone());
    assert_eq!(record, *storage.find(&key, unix_timestamp_now()).unwrap());
    assert_eq!(record.data, value);

    assert_eq!(None, storage.find("non-existing", unix_timestamp_now()));
}

#[test]
fn test_never_expiring_key() {
    let mut storage = HashMapStorage::new();

    let key = "test";
    let value = b"hello".to_vec();
    let mut record = Record::new_with_expire_time(NEVER_EXPIRES);

    record.data = value.clone();
    storage.store(key.to_owned(), record.clone());
    assert_eq!(record, *storage.find(&key, unix_timestamp_now()).unwrap());
    assert_eq!(record.data, value);
}

#[test]
fn test_immediately_expiring_key() {
    let mut storage = HashMapStorage::new();

    let key = "test";
    let value = b"hello".to_vec();
    let mut record = Record::new_with_expire_time(IMMEDIATELY_EXPIRES);

    record.data = value.clone();
    storage.store(key.to_owned(), record.clone());
    assert_eq!(None, storage.find(&key, unix_timestamp_now()));
}

#[test]
fn test_with_expired_key() {
    let mut storage = HashMapStorage::new();

    let key = "test";
    let value = b"hello".to_vec();
    let mut record = Record::new_with_expire_time(12345);

    record.data = value.clone();
    storage.store(key.to_owned(), record.clone());
    assert_eq!(None, storage.find(&key, unix_timestamp_now()));
}

#[test]
fn expired_record_is_removed_on_find() {
    let mut storage = HashMapStorage::new();
    let mut record = Record::new_with_expire_time(100);
    record.data = b"x".to_vec();
    storage.store("k".to_owned(), record.clone());
    assert_eq!(Some(&record), storage.find("k", 99));
    assert_eq!(None, storage.find("k", 100));
    assert_eq!(None, storage.remove("k"));
}

#[test]
fn remove_returns_record_even_if_expired() {
    let mut storage = HashMapStorage::new();
    let record = Record::new_with_expire_time(IMMEDIATELY_EXPIRES);
    storage.store("k".to_owned(), record.clone());
    assert_eq!(Some(record), storage.remove("k"));
    assert_eq!(None, storage.remove("k"));
}

#[test]
fn contains_live_follows_expiry() {
    let mut storage = HashMapStorage::new();
    storage.store("a".to_owned(), Record::new_with_expire_time(NEVER_EXPIRES));
    storage.store("b".to_owned(), Record::new_with_expire_time(50));
    assert!(storage.contains_live("a", 1_000_000));
    assert!(storage.contains_live("b", 49));
    assert!(!storage.contains_live("b", 50));
    assert!(!storage.contains_live("b", 0));
    assert!(!storage.contains_live("c", 0));
}

#[test]
fn store_overwrites_only_its_key() {
    let mut storage = HashMapStorage::new();
    let mut r1 = Record::default();
    r1.data = b"one".to_vec();
    let mut r2 = Record::default();
    r2.data = b"two".to_vec();
    let mut r3 = Record::default();
    r3.data = b"three".to_vec();
    storage.store("x".to_owned(), r1.clone());
    storage.store("y".to_owned(), r2.clone());
    storage.store("x".to_owned(), r3.clone());
    assert_eq!(Some(&r3), storage.find("x", 0));
    assert_eq!(Some(&r2), storage.find("y", 0));
}

#[test]
fn record_expiry_rules() {
    assert!(!Record::new_with_expire_time(0).is_expired(i64::MAX));
    assert!(Record::new_with_expire_time(-1).is_expired(0));
    assert!(Record::new_with_expire_time(-5).is_expired(0));
    assert!(!Record::new_with_expire_time(10).is_expired(9));
    assert!(Record::new_with_expire_time(10).is_expired(10));
}

#[test]
fn expire_time_formula() {
    assert_eq!(Record::expire_time(10, 1000), 1010);
    assert_eq!(Record::expire_time(0, 1000), 0);
    assert_eq!(Record::expire_time(-1, 1000), -1);
    assert_eq!(Record::expire_time(-7, 1000), -7);
    assert_eq!(Record::expire_time(i64::MAX, 5), i64::MAX);
}

#[test]
fn clock_reads_present_time() {
    assert!(unix_timestamp_now() > 1_600_000_000);
}

#[test]
fn record_reply_line() {
    let mut record = Record::default();
    record.key = "k1".to_owned();
    record.flags = 42;
    record.byte_count = 5;
    record.data = b"hello".to_vec();
    assert_eq!(record.to_string().unwrap(), "VALUE k1 42 5\r\nhello\r\n");
    record.data = vec![0xff, 0xfe];
    assert!(matches!(record.to_string(), Err(ccmemcached::AppError::Utf8Error)));
}
