use lib::hashtable::{copy_string, keyeq, HASH_TABLE, HASH_TABLE_ITER};

#[test]
fn test_keyeq() {
    assert!(keyeq(b"abc", b"abc"));
    assert!(!keyeq(b"abc", b"abd"));
    assert!(!keyeq(b"abc", b"ab"));
    assert!(keyeq(b"", b""));
}

#[test]
fn test_copy_string() {
    assert_eq!(copy_string(b"hello"), b"hello".to_vec());
    assert_eq!(copy_string(b""), Vec::<u8>::new());
}

#[test]
fn test_lookup_on_empty_table() {
    let t: HASH_TABLE<u32> = HASH_TABLE::hashTableInit(7);
    assert_eq!(t.len(), 0);
    assert_eq!(t.lookup(b"x"), None);
}

#[test]
fn test_lookup_create_inserts_once() {
    let mut t: HASH_TABLE<u32> = HASH_TABLE::hashTableInit(42);
    let a = t.lookup_create(b"alpha", 1).unwrap();
    let b = t.lookup_create(b"beta", 2).unwrap();
    assert_ne!(a, b);
    assert_eq!(t.len(), 2);
    let again = t.lookup_create(b"alpha", 99).unwrap();
    assert_eq!(again, a);
    assert_eq!(*t.value(a), 1);
    assert_eq!(t.len(), 2);
    assert_eq!(t.name(b), b"beta");
    assert_eq!(t.lookup(b"beta"), Some(b));
    assert_eq!(t.lookup(b"gamma"), None);
}

#[test]
fn test_table_grows_and_keeps_every_record() {
    let mut t: HASH_TABLE<usize> = HASH_TABLE::hashTableInit(0xdead_beef);
    let mut ids = Vec::new();
    for i in 0..500usize {
        let name = format!("name{}", i);
        ids.push(t.lookup_create(name.as_bytes(), i).unwrap());
    }
    assert_eq!(t.len(), 500);
    for i in 0..500usize {
        let name = format!("name{}", i);
        let e = t.lookup(name.as_bytes()).unwrap();
        assert_eq!(e, ids[i]);
        assert_eq!(*t.value(e), i);
        assert_eq!(t.name(e), name.as_bytes());
    }
}

#[test]
fn test_set_value() {
    let mut t: HASH_TABLE<bool> = HASH_TABLE::hashTableInit(1);
    let e = t.lookup_create(b"ent", false).unwrap();
    t.set_value(e, true);
    assert!(*t.value(e));
}

#[test]
fn test_clear_forgets_records() {
    let mut t: HASH_TABLE<u8> = HASH_TABLE::hashTableInit(3);
    for i in 0..20u8 {
        t.lookup_create(&[b'a', i], i).unwrap();
    }
    t.hashTableClear();
    assert_eq!(t.len(), 0);
    assert_eq!(t.lookup(&[b'a', 3]), None);
    let e = t.lookup_create(b"again", 5).unwrap();
    assert_eq!(t.lookup(b"again"), Some(e));
}

#[test]
fn test_iterator_visits_each_record_once() {
    let mut t: HASH_TABLE<u32> = HASH_TABLE::hashTableInit(9);
    for i in 0..100u32 {
        t.lookup_create(format!("k{}", i).as_bytes(), i).unwrap();
    }
    let mut it = HASH_TABLE_ITER::hashTableIterInit(&t);
    let mut seen = vec![false; t.len()];
    while let Some(e) = it.hashTableIterNext(&t) {
        assert!(!seen[e]);
        seen[e] = true;
    }
    assert!(seen.iter().all(|s| *s));
    assert_eq!(it.hashTableIterNext(&t), None);
}

#[test]
fn test_iterator_on_empty_table() {
    let t: HASH_TABLE<u32> = HASH_TABLE::hashTableInit(0);
    let mut it = HASH_TABLE_ITER::hashTableIterInit(&t);
    assert_eq!(it.hashTableIterNext(&t), None);
}
