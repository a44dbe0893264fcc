use exonum::keys::{compare_keys, key_below, KeyOrder};
use exonum::storage::MemoryDB;

fn store(pairs: &[(&[u8], &[u8])]) -> MemoryDB {
    let mut db = MemoryDB::new();
    let mut fork = db.fork();
    for (k, v) in pairs {
        fork.put(k.to_vec(), v.to_vec());
    }
    db.merge(fork.into_patch()).unwrap();
    db
}

fn drain(mut it: exonum::storage::MemoryDBIter) -> Vec<(Vec<u8>, Vec<u8>)> {
    let mut out = Vec::new();
    while let Some(e) = it.next() {
        out.push(e);
    }
    out
}

#[test]
fn empty_store_has_nothing() {
    let db = MemoryDB::new();
    assert_eq!(db.get(b"a"), None);
    assert!(!db.contains(b"a"));
    assert!(drain(db.iter(b"")).is_empty());
}

#[test]
fn merge_puts_and_deletes() {
    let mut db = store(&[(b"a", b"1"), (b"b", b"2")]);
    assert_eq!(db.get(b"a"), Some(b"1".to_vec()));
    let mut fork = db.fork();
    fork.remove(b"a");
    fork.put(b"b".to_vec(), b"3".to_vec());
    fork.put(b"c".to_vec(), b"4".to_vec());
    assert!(!fork.contains(b"a"));
    assert_eq!(fork.get(b"b"), Some(b"3".to_vec()));
    assert_eq!(db.get(b"b"), Some(b"2".to_vec()));
    db.merge(fork.into_patch()).unwrap();
    assert_eq!(db.get(b"a"), None);
    assert_eq!(db.get(b"b"), Some(b"3".to_vec()));
    assert_eq!(db.get(b"c"), Some(b"4".to_vec()));
    assert!(db.contains(b"c"));
}

#[test]
fn last_change_to_a_key_wins() {
    let mut db = MemoryDB::new();
    let mut fork = db.fork();
    fork.put(b"k".to_vec(), b"1".to_vec());
    fork.remove(b"k");
    fork.put(b"k".to_vec(), b"2".to_vec());
    db.merge(fork.into_patch()).unwrap();
    assert_eq!(db.get(b"k"), Some(b"2".to_vec()));
}

#[test]
fn snapshot_is_isolated_from_merges() {
    let mut db = store(&[(b"a", b"1")]);
    let snapshot = db.snapshot();
    let mut fork = db.fork();
    fork.put(b"a".to_vec(), b"9".to_vec());
    fork.put(b"z".to_vec(), b"9".to_vec());
    db.merge(fork.into_patch()).unwrap();
    assert_eq!(snapshot.get(b"a"), Some(b"1".to_vec()));
    assert_eq!(snapshot.get(b"z"), None);
    assert_eq!(db.get(b"a"), Some(b"9".to_vec()));
}

#[test]
fn two_snapshots_agree() {
    let db = store(&[(b"a", b"1"), (b"b", b"2")]);
    let s1 = db.snapshot();
    let s2 = db.snapshot();
    assert_eq!(drain(s1.iter(b"")), drain(s2.iter(b"")));
}

#[test]
fn iteration_is_ordered_and_starts_at_key() {
    let db = store(&[(b"b", b"2"), (b"ab", b"3"), (b"a", b"1"), (b"c", b"4")]);
    let all = drain(db.iter(b""));
    let keys: Vec<Vec<u8>> = all.iter().map(|e| e.0.clone()).collect();
    assert_eq!(keys, vec![b"a".to_vec(), b"ab".to_vec(), b"b".to_vec(), b"c".to_vec()]);
    let from_b = drain(db.iter(b"aa"));
    assert_eq!(from_b[0], (b"ab".to_vec(), b"3".to_vec()));
    assert_eq!(from_b.len(), 3);
    assert!(drain(db.iter(b"d")).is_empty());
}

#[test]
fn peek_does_not_advance() {
    let db = store(&[(b"x", b"1"), (b"y", b"2")]);
    let mut it = db.iter(b"");
    assert_eq!(it.peek(), Some((b"x".to_vec(), b"1".to_vec())));
    assert_eq!(it.peek(), Some((b"x".to_vec(), b"1".to_vec())));
    assert_eq!(it.next(), Some((b"x".to_vec(), b"1".to_vec())));
    assert_eq!(it.peek(), Some((b"y".to_vec(), b"2".to_vec())));
    assert_eq!(it.next(), Some((b"y".to_vec(), b"2".to_vec())));
    assert_eq!(it.peek(), None);
    assert_eq!(it.next(), None);
}

#[test]
fn key_order_is_lexicographic() {
    assert_eq!(compare_keys(b"a", b"b"), KeyOrder::Less);
    assert_eq!(compare_keys(b"ab", b"a"), KeyOrder::Greater);
    assert_eq!(compare_keys(b"", b""), KeyOrder::Equal);
    assert_eq!(compare_keys(b"abc", b"abc"), KeyOrder::Equal);
    assert!(key_below(b"", b"\x00"));
    assert!(!key_below(b"\xff", b"\x00\xff"));
}
