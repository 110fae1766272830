use lever::table::hoptable::{fnv1a_bytes, fnv1a_u64, HOPTable, TableError};

#[test]
fn hoptable_inserts() {
    let mut hoptable: HOPTable<String, u64> = HOPTable::new();
    hoptable.insert("Saudade0".to_string(), 1).unwrap();
    hoptable.insert("Saudade1".to_string(), 2).unwrap();
    hoptable.insert("Saudade2".to_string(), 3).unwrap();
    hoptable.insert("Saudade3".to_string(), 4).unwrap();
    hoptable.insert("Saudade4".to_string(), 321321).unwrap();
    hoptable.insert("Saudade5".to_string(), 6).unwrap();

    hoptable.insert("123123".to_string(), 10).unwrap();
    hoptable.insert("1231231".to_string(), 11).unwrap();
    hoptable.insert("1231232".to_string(), 12).unwrap();
    hoptable.insert("1231233".to_string(), 13).unwrap();
    hoptable.insert("1231234".to_string(), 14).unwrap();
    hoptable.insert("1231235".to_string(), 15).unwrap();

    assert_eq!(hoptable.get(&"Saudade4".to_string()), Some(321321));
}

#[test]
fn hoptable_removes() {
    let mut hoptable: HOPTable<String, u64> = HOPTable::new();
    hoptable.insert("Saudade0".to_string(), 1).unwrap();
    assert_eq!(hoptable.get(&"Saudade0".to_string()), Some(1));

    hoptable.remove(&"Saudade0".to_string()).unwrap();
    assert_eq!(hoptable.get(&"Saudade0".to_string()), None);
}

#[test]
fn hoptable_upsert() {
    let mut hoptable: HOPTable<String, u64> = HOPTable::new();
    hoptable.insert("Saudade0".to_string(), 1).unwrap();
    assert_eq!(hoptable.get(&"Saudade0".to_string()), Some(1));

    hoptable.insert("Saudade0".to_string(), 2).unwrap();
    assert_eq!(hoptable.get(&"Saudade0".to_string()), Some(2));
}

#[test]
fn hoptable_nonexistent() {
    let hoptable: HOPTable<u64, u64> = HOPTable::new();
    let k1 = 4856049742280869673_u64;
    let k2 = 2440000773311228611_u64;

    assert_eq!(hoptable.key_index(&k1), hoptable.key_index(&k2));
}

#[test]
fn upsert_then_remove_large_table() {
    let mut t: HOPTable<String, u64> = HOPTable::with_capacity(1 << 20);
    t.insert("k".to_string(), 1).unwrap();
    assert_eq!(t.insert("k".to_string(), 2), Ok(Some(1)));
    assert_eq!(t.get(&"k".to_string()), Some(2));
    assert_eq!(t.remove(&"k".to_string()), Ok(Some(2)));
    assert_eq!(t.get(&"k".to_string()), None);
}

#[test]
fn remove_absent_key() {
    let mut t: HOPTable<u64, u64> = HOPTable::with_capacity(16);
    assert_eq!(t.remove(&5), Ok(None));
    assert_eq!(t.key_index(&5), -1);
}

#[test]
fn key_index_finds_resident_key() {
    let mut t: HOPTable<u64, u64> = HOPTable::with_capacity(16);
    t.insert(5, 50).unwrap();
    let i = t.key_index(&5);
    assert!(i >= 0);
    assert!((i as usize) < 16 + 256);
}

#[test]
fn crowded_table_keeps_every_key() {
    // One home bucket: every key shares it, so displacement and the capacity limit are reached.
    let mut t: HOPTable<u64, u64> = HOPTable::with_capacity(1);
    let mut stored = Vec::new();
    let mut refused = 0;
    for k in 0..300_u64 {
        match t.insert(k, k * 10) {
            Ok(prev) => {
                assert_eq!(prev, None);
                stored.push(k);
            }
            Err(e) => {
                assert_eq!(e, TableError::Capacity);
                assert_eq!(t.get(&k), None);
                refused += 1;
            }
        }
    }
    assert_eq!(stored.len(), 32);
    assert_eq!(refused, 300 - 32);
    for k in stored {
        assert_eq!(t.get(&k), Some(k * 10));
    }
}

#[test]
fn many_keys_small_table() {
    let mut t: HOPTable<u64, u64> = HOPTable::with_capacity(64);
    let mut ok = Vec::new();
    for k in 0..200_u64 {
        if t.insert(k, k + 1).is_ok() {
            ok.push(k);
        }
    }
    for k in 0..200_u64 {
        if ok.contains(&k) {
            assert_eq!(t.get(&k), Some(k + 1));
        } else {
            assert_eq!(t.get(&k), None);
        }
    }
}

#[test]
fn fnv1a_known_values() {
    assert_eq!(fnv1a_bytes(b""), 0xcbf29ce484222325);
    assert_eq!(fnv1a_bytes(b"a"), 0xaf63dc4c8601ec8c);
    assert_eq!(fnv1a_u64(0x61), fnv1a_bytes(&[0x61, 0, 0, 0, 0, 0, 0, 0]));
}

#[test]
fn insert_with_free_neighborhood_succeeds() {
    let mut t: HOPTable<u64, u64> = HOPTable::with_capacity(2);
    for k in 0..20_u64 {
        assert!(t.insert(k, k).is_ok());
    }
    for k in 0..20_u64 {
        assert_eq!(t.get(&k), Some(k));
    }
}
