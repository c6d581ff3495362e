use rlox::table::{hash_string, Table};
use rlox::value::Value;

fn num(x: f64) -> Value {
    Value::number(x.to_bits())
}

fn as_f64(v: &Value) -> f64 {
    f64::from_bits(v.as_number())
}

#[test]
fn test_table_set_and_get() {
    let mut table = Table::new();

    table.set(b"name".to_vec(), Value::string(b"Alice".to_vec()));
    table.set(b"age".to_vec(), num(30.0));

    assert_eq!(table.get(b"name").unwrap().as_string().as_slice(), b"Alice");
    assert_eq!(as_f64(table.get(b"age").unwrap()), 30.0);
    assert!(table.get(b"unknown").is_none());
}

#[test]
fn test_table_update() {
    let mut table = Table::new();

    let is_new = table.set(b"key".to_vec(), num(1.0));
    assert!(is_new);

    let is_new = table.set(b"key".to_vec(), num(2.0));
    assert!(!is_new);

    assert_eq!(as_f64(table.get(b"key").unwrap()), 2.0);
}

#[test]
fn test_table_delete() {
    let mut table = Table::new();

    table.set(b"key".to_vec(), num(42.0));
    assert!(table.get(b"key").is_some());

    assert!(table.delete(b"key"));
    assert!(table.get(b"key").is_none());

    assert!(!table.delete(b"key"));
}

#[test]
fn test_table_many_entries() {
    let mut table = Table::new();

    for i in 0..100 {
        let key = format!("key{}", i);
        table.set(key.clone().into_bytes(), num(i as f64));
    }

    for i in 0..100 {
        let key = format!("key{}", i);
        assert_eq!(as_f64(table.get(key.as_bytes()).unwrap()), i as f64);
    }
}

#[test]
fn test_set_through_tombstone_reports_new_key() {
    // A deleted key leaves a tombstone; storing the key again must still
    // report it as new, and a never-deleted key as not new.
    let mut table = Table::new();
    table.set(b"x".to_vec(), num(1.0));
    table.delete(b"x");
    assert!(table.set(b"x".to_vec(), num(2.0)));
    assert!(!table.set(b"x".to_vec(), num(3.0)));
    assert_eq!(as_f64(table.get(b"x").unwrap()), 3.0);
}

#[test]
fn test_live_keys_after_mixed_history() {
    let mut table = Table::new();
    table.set(b"a".to_vec(), num(1.0));
    table.set(b"b".to_vec(), num(2.0));
    table.delete(b"a");
    table.set(b"b".to_vec(), num(3.0));
    table.set(b"c".to_vec(), num(4.0));
    table.delete(b"missing");

    assert!(table.get(b"a").is_none());
    assert_eq!(as_f64(table.get(b"b").unwrap()), 3.0);
    assert_eq!(as_f64(table.get(b"c").unwrap()), 4.0);
    assert!(table.get(b"never").is_none());
}

#[test]
fn test_find_string_by_content() {
    let mut table = Table::new();
    table.set(b"hello".to_vec(), Value::nil());
    let h = hash_string(b"hello");
    let found = table.find_string(b"hello", h).expect("stored key");
    assert_eq!(found.as_slice(), b"hello");
    let h2 = hash_string(b"world");
    assert!(table.find_string(b"world", h2).is_none());
}

#[test]
fn test_fnv_hash_values() {
    // FNV-1a 32-bit: the offset basis for the empty string, and the
    // known digests of short strings.
    assert_eq!(hash_string(b""), 2166136261);
    assert_eq!(hash_string(b"a"), 0xE40C292C);
    assert_eq!(hash_string(b"foobar"), 0xBF9CF968);
}
