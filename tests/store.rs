use rkv::env::{get_store, Rkv, Store, StoreError, Transaction};
use rkv::key_order::key_less;
use rkv::manager::Manager;
use rkv::table::{Entry, Table};
use rkv::value::Value;

fn s(v: &str) -> Value {
    Value::from_str(v)
}

fn pairs(entries: &[Entry]) -> Vec<(Vec<u8>, Value)> {
    entries.iter().map(|e| (e.key.clone(), e.value.duplicate())).collect()
}

fn writer(env: &mut Rkv) -> Transaction {
    env.begin_write().expect("writer slot is free")
}

#[test]
fn dump_yields_byte_order_regardless_of_insertion() {
    let mut env = Rkv::new();
    let store = get_store(None, &mut env);
    let mut w = writer(&mut env);
    w.put(store, b"b", s("2")).unwrap();
    w.put(store, b"a", s("1")).unwrap();
    env.commit(&mut w).unwrap();
    let r = env.begin_read();
    let dump = r.iter_start(store).unwrap();
    assert_eq!(pairs(&dump), vec![(b"a".to_vec(), s("1")), (b"b".to_vec(), s("2"))]);
}

#[test]
fn dump_after_puts_in_order() {
    let mut env = Rkv::new();
    let store = get_store(Some("x"), &mut env);
    let mut w = writer(&mut env);
    w.put(store, b"a", s("1")).unwrap();
    w.put(store, b"b", s("2")).unwrap();
    env.commit(&mut w).unwrap();
    let dump = env.begin_read().iter_start(store).unwrap();
    assert_eq!(pairs(&dump), vec![(b"a".to_vec(), s("1")), (b"b".to_vec(), s("2"))]);
}

#[test]
fn delete_missing_on_empty_store_is_key_not_found() {
    let mut env = Rkv::new();
    let store = get_store(None, &mut env);
    let mut w = writer(&mut env);
    assert_eq!(w.delete(store, b"missing"), Err(StoreError::KeyNotFound));
    assert_eq!(w.iter_start(store).unwrap().len(), 0);
    env.commit(&mut w).unwrap();
    assert_eq!(env.begin_read().iter_start(store).unwrap().len(), 0);
}

#[test]
fn last_put_wins_in_same_and_later_transaction() {
    let mut env = Rkv::new();
    let store = get_store(None, &mut env);
    let mut w = writer(&mut env);
    w.put(store, b"k", s("1")).unwrap();
    w.put(store, b"other", Value::I64(7)).unwrap();
    w.put(store, b"k", s("2")).unwrap();
    assert_eq!(w.get(store, b"k"), Ok(Some(s("2"))));
    env.commit(&mut w).unwrap();
    let r = env.begin_read();
    assert_eq!(r.get(store, b"k"), Ok(Some(s("2"))));
    assert_eq!(r.get(store, b"other"), Ok(Some(Value::I64(7))));
}

#[test]
fn deleted_key_absent_after_commit() {
    let mut env = Rkv::new();
    let store = get_store(None, &mut env);
    let mut w = writer(&mut env);
    w.put(store, b"k", s("v")).unwrap();
    env.commit(&mut w).unwrap();
    let mut w2 = writer(&mut env);
    assert_eq!(w2.delete(store, b"k"), Ok(()));
    env.commit(&mut w2).unwrap();
    assert_eq!(env.begin_read().get(store, b"k"), Ok(None));
    let w3 = writer(&mut env);
    assert_eq!(w3.get(store, b"k"), Ok(None));
}

#[test]
fn put_then_get_in_uncommitted_writer() {
    let mut env = Rkv::new();
    let store = get_store(None, &mut env);
    let mut w = writer(&mut env);
    w.put(store, b"key", Value::Blob(vec![1, 2, 3])).unwrap();
    assert_eq!(w.get(store, b"key"), Ok(Some(Value::Blob(vec![1, 2, 3]))));
    assert_eq!(env.begin_read().get(store, b"key"), Ok(None));
}

#[test]
fn reader_keeps_snapshot_after_writer_commits() {
    let mut env = Rkv::new();
    let store = get_store(None, &mut env);
    let reader = env.begin_read();
    let mut w = writer(&mut env);
    w.put(store, b"new", Value::Bool(true)).unwrap();
    env.commit(&mut w).unwrap();
    assert_eq!(reader.get(store, b"new"), Ok(None));
    assert_eq!(env.begin_read().get(store, b"new"), Ok(Some(Value::Bool(true))));
}

#[test]
fn second_writer_waits_then_sees_first_commit() {
    let mut env = Rkv::new();
    let store = get_store(None, &mut env);
    let mut first = writer(&mut env);
    assert!(env.writer_busy());
    assert!(env.begin_write().is_none());
    first.put(store, b"a", s("1")).unwrap();
    env.commit(&mut first).unwrap();
    assert!(!env.writer_busy());
    let second = writer(&mut env);
    assert_eq!(second.get(store, b"a"), Ok(Some(s("1"))));
}

#[test]
fn open_store_twice_gives_same_store() {
    let mut env = Rkv::new();
    let a = env.open_or_create("x");
    let b = env.open_or_create("x");
    assert_eq!(a, b);
    assert_eq!(env.store_count(), 1);
    let d = env.open_or_create_default();
    assert_ne!(a, d);
    assert_eq!(env.store_count(), 2);
    let mut w = writer(&mut env);
    w.put(a, b"k", s("via a")).unwrap();
    assert_eq!(w.get(b, b"k"), Ok(Some(s("via a"))));
    assert_eq!(w.get(d, b"k"), Ok(None));
}

#[test]
fn open_existing_reports_store_not_found() {
    let mut env = Rkv::new();
    assert_eq!(env.open_existing(Some("x")), Err(StoreError::StoreNotFound));
    let x = env.open_or_create("x");
    assert_eq!(env.open_existing(Some("x")), Ok(x));
    assert_eq!(env.open_existing(None), Err(StoreError::StoreNotFound));
}

#[test]
fn put_on_reader_is_read_only_error() {
    let mut env = Rkv::new();
    let store = get_store(None, &mut env);
    let mut r = env.begin_read();
    assert_eq!(r.put(store, b"k", s("v")), Err(StoreError::ReadOnlyError));
    assert_eq!(r.delete(store, b"k"), Err(StoreError::ReadOnlyError));
    assert_eq!(env.commit(&mut r), Err(StoreError::ReadOnlyError));
    assert_eq!(r.get(store, b"k"), Ok(None));
}

#[test]
fn use_after_commit_is_transaction_ended() {
    let mut env = Rkv::new();
    let store = get_store(None, &mut env);
    let mut w = writer(&mut env);
    env.commit(&mut w).unwrap();
    assert!(!w.is_active());
    assert_eq!(w.get(store, b"k"), Err(StoreError::TransactionEnded));
    assert_eq!(w.put(store, b"k", s("v")), Err(StoreError::TransactionEnded));
    assert!(w.iter_start(store).is_err());
    assert_eq!(env.commit(&mut w), Err(StoreError::TransactionEnded));
}

#[test]
fn unknown_store_is_store_not_found() {
    let mut env = Rkv::new();
    let mut w = writer(&mut env);
    let missing = Store { index: 3 };
    assert_eq!(w.get(missing, b"k"), Err(StoreError::StoreNotFound));
    assert_eq!(w.put(missing, b"k", s("v")), Err(StoreError::StoreNotFound));
}

#[test]
fn store_created_after_snapshot_is_unknown_to_it() {
    let mut env = Rkv::new();
    let a = get_store(Some("a"), &mut env);
    let mut w = writer(&mut env);
    let b = get_store(Some("b"), &mut env);
    w.put(a, b"k", s("1")).unwrap();
    assert_eq!(w.get(b, b"k"), Err(StoreError::StoreNotFound));
    env.commit(&mut w).unwrap();
    assert_eq!(env.store_count(), 2);
    let r = env.begin_read();
    assert_eq!(r.get(a, b"k"), Ok(Some(s("1"))));
    assert_eq!(r.get(b, b"k"), Ok(None));
}

#[test]
fn abort_discards_writes_and_frees_writer() {
    let mut env = Rkv::new();
    let store = get_store(None, &mut env);
    let mut w = writer(&mut env);
    w.put(store, b"k", s("v")).unwrap();
    env.abort(&mut w);
    assert!(!env.writer_busy());
    assert_eq!(w.get(store, b"k"), Err(StoreError::TransactionEnded));
    assert_eq!(env.begin_read().get(store, b"k"), Ok(None));
}

#[test]
fn iter_from_starts_at_bound() {
    let mut env = Rkv::new();
    let store = get_store(None, &mut env);
    let mut w = writer(&mut env);
    for k in ["d", "a", "c", "b"] {
        w.put(store, k.as_bytes(), s(k)).unwrap();
    }
    let from_b = w.iter_from(store, b"b").unwrap();
    let keys: Vec<Vec<u8>> = from_b.iter().map(|e| e.key.clone()).collect();
    assert_eq!(keys, vec![b"b".to_vec(), b"c".to_vec(), b"d".to_vec()]);
    let from_bb = w.iter_from(store, b"bb").unwrap();
    assert_eq!(from_bb.len(), 2);
    assert_eq!(w.iter_from(store, b"z").unwrap().len(), 0);
    assert_eq!(w.iter_from(store, b"").unwrap().len(), 4);
}

#[test]
fn keys_compare_by_bytes() {
    assert!(key_less(b"a", b"b"));
    assert!(key_less(b"ab", b"b"));
    assert!(key_less(b"a", b"ab"));
    assert!(key_less(b"", b"a"));
    assert!(!key_less(b"a", b"a"));
    assert!(!key_less(b"b", b"ab"));
    assert!(key_less(b"Z", b"a"));
}

#[test]
fn table_put_delete() {
    let mut t = Table::new();
    t.put(b"x", Value::I64(1));
    t.put(b"x", Value::I64(2));
    assert_eq!(t.len(), 1);
    assert_eq!(t.get(b"x"), Some(Value::I64(2)));
    assert!(t.delete(b"x"));
    assert!(!t.delete(b"x"));
    assert_eq!(t.get(b"x"), None);
}

#[test]
fn values_compare_by_kind_and_contents() {
    assert_eq!(s("1"), Value::Str("1".to_string()));
    assert_ne!(s("1"), Value::I64(1));
    assert_ne!(Value::Blob(vec![1]), Value::Blob(vec![1, 2]));
    assert_eq!(Value::Bool(false).duplicate(), Value::Bool(false));
}

#[test]
fn manager_opens_each_path_once() {
    let mut m = Manager::new();
    let a = m.get_or_create("/tmp/a");
    let b = m.get_or_create("/tmp/b");
    let a2 = m.get_or_create("/tmp/a");
    assert_eq!(a, a2);
    assert_ne!(a, b);
    assert_eq!(m.len(), 2);
    assert_eq!(m.find("/tmp/b"), Some(b));
    assert_eq!(m.find("/tmp/c"), None);
    {
        let env = m.env_mut(a);
        let store = get_store(Some("s"), env);
        let mut w = writer(env);
        w.put(store, b"k", s("v")).unwrap();
        env.commit(&mut w).unwrap();
    }
    let env = m.env_mut(a2);
    let store = get_store(Some("s"), env);
    assert_eq!(env.begin_read().get(store, b"k"), Ok(Some(s("v"))));
    assert_eq!(m.env_mut(b).store_count(), 0);
}

#[test]
fn writer_and_reader_modes() {
    let mut env = Rkv::new();
    let r = env.begin_read();
    assert!(!r.is_writer());
    assert!(r.is_active());
    let w = writer(&mut env);
    assert!(w.is_writer());
}
