use lever::table::lotable::LOTable;

#[test]
fn lotable_insert_get_remove() {
    let mut t: LOTable<String, u64> = LOTable::new();
    assert_eq!(t.insert("Saudade0".to_string(), 1), Ok(None));
    assert_eq!(t.get(&"Saudade0".to_string()), Some(1));
    assert!(t.contains_key(&"Saudade0".to_string()));
    assert_eq!(t.remove(&"Saudade0".to_string()), Ok(Some(1)));
    assert_eq!(t.get(&"Saudade0".to_string()), None);
    assert!(!t.contains_key(&"Saudade0".to_string()));
}

#[test]
fn lotable_upsert() {
    let mut t: LOTable<u64, u64> = LOTable::with_capacity(8);
    t.insert(5, 1).unwrap();
    assert_eq!(t.insert(5, 2), Ok(Some(1)));
    assert_eq!(t.get(&5), Some(2));
    assert_eq!(t.len(), 1);
}

#[test]
fn lotable_len_and_clear() {
    let mut t: LOTable<u64, u64> = LOTable::with_capacity(4);
    for k in 0..100_u64 {
        t.insert(k, k * 2).unwrap();
    }
    assert_eq!(t.len(), 100);
    for k in 0..100_u64 {
        assert_eq!(t.get(&k), Some(k * 2));
    }
    t.clear().unwrap();
    assert_eq!(t.len(), 0);
    assert_eq!(t.get(&7), None);
}

#[test]
fn lotable_each_update_is_one_commit() {
    let mut t: LOTable<String, u64> = LOTable::with_capacity(16);
    let clock0 = t.tx_manager().version_clock();
    t.insert("d".to_string(), 1).unwrap();
    t.insert("e".to_string(), 1).unwrap();
    t.remove(&"d".to_string()).unwrap();
    assert_eq!(t.tx_manager().version_clock(), clock0 + 3);
}

#[test]
fn lotable_counter_writers() {
    // Readers and incrementing writers, one after another.
    let mut t: LOTable<String, u64> = LOTable::new();
    let mut commits = 0;
    for i in 0..100 {
        let cur = t.get(&"d".to_string()).unwrap_or(0);
        if i % 2 == 1 {
            t.insert("d".to_string(), cur + 1).unwrap();
            commits += 1;
        }
    }
    assert_eq!(t.get(&"d".to_string()), Some(commits));
    assert!(commits >= 1);
}

#[test]
fn lotable_keys_and_values() {
    let mut t: LOTable<u64, u64> = LOTable::with_capacity(3);
    for k in 0..10_u64 {
        t.insert(k, k + 100).unwrap();
    }
    let mut keys = t.keys();
    let values = t.values();
    assert_eq!(keys.len(), 10);
    assert_eq!(values.len(), 10);
    for (k, v) in t.keys().iter().zip(values.iter()) {
        assert_eq!(*v, *k + 100);
    }
    keys.sort();
    assert_eq!(keys, (0..10_u64).collect::<Vec<_>>());
}

#[test]
fn lever_builds_tables() {
    let l = lever::lever();
    let mut t: LOTable<String, u64> = l.new_lotable();
    t.insert("a".to_string(), 1).unwrap();
    assert_eq!(t.get(&"a".to_string()), Some(1));
    let m: lever::txn::transact::TxnManager<u64> = l.manager();
    assert_eq!(m.version_clock(), 0);
}

#[test]
fn iter_generator() {
    let mut lotable: LOTable<String, u64> = LOTable::new();
    lotable.insert("Saudade0".to_string(), 123123).unwrap();
    lotable.insert("Saudade0".to_string(), 123).unwrap();
    lotable.insert("Saudade1".to_string(), 123123).unwrap();
    lotable.insert("Saudade2".to_string(), 123123).unwrap();
    lotable.insert("Saudade3".to_string(), 123123).unwrap();
    lotable.insert("Saudade4".to_string(), 123123).unwrap();
    lotable.insert("Saudade5".to_string(), 123123).unwrap();

    lotable.insert("123123".to_string(), 123123).unwrap();
    lotable.insert("1231231".to_string(), 123123).unwrap();
    lotable.insert("1231232".to_string(), 123123).unwrap();
    lotable.insert("1231233".to_string(), 123123).unwrap();
    lotable.insert("1231234".to_string(), 123123).unwrap();
    lotable.insert("1231235".to_string(), 123123).unwrap();

    let res: Vec<(String, u64)> = lotable.iter();
    assert_eq!(res.len(), 12);

    assert_eq!(lotable.get(&"Saudade0".to_string()), Some(123));
}

#[test]
fn values_iter_generator() {
    let mut lotable: LOTable<String, u64> = LOTable::new();

    for _i in 0..100 {
        lotable.insert("Saudade0".to_string(), 123123).unwrap();
        lotable.insert("Saudade0".to_string(), 123).unwrap();
        lotable.insert("Saudade1".to_string(), 123123).unwrap();
        lotable.insert("Saudade2".to_string(), 123123).unwrap();
        lotable.insert("Saudade3".to_string(), 123123).unwrap();
        lotable.insert("Saudade4".to_string(), 123123).unwrap();
        lotable.insert("Saudade5".to_string(), 123123).unwrap();

        lotable.insert("123123".to_string(), 123123).unwrap();
        lotable.insert("1231231".to_string(), 123123).unwrap();
        lotable.insert("1231232".to_string(), 123123).unwrap();
        lotable.insert("1231233".to_string(), 123123).unwrap();
        lotable.insert("1231234".to_string(), 123123).unwrap();
        lotable.insert("1231235".to_string(), 123123).unwrap();

        let res: Vec<u64> = lotable.values();
        assert_eq!(res.len(), 12);
    }

    lotable.clear().unwrap();
    let res: Vec<u64> = lotable.values();
    assert_eq!(res.len(), 0);

    for i in 0..1_000 {
        lotable.insert(format!("{}", i), i as u64).unwrap();

        let resvals: Vec<u64> = lotable.values();
        assert_eq!(resvals.len(), i + 1);
    }

    lotable.clear().unwrap();
    let res: Vec<u64> = lotable.values();
    assert_eq!(res.len(), 0);

    for i in 0..1_000 {
        lotable.insert(format!("{}", i), i as u64).unwrap();

        let reskeys: Vec<String> = lotable.keys();
        assert_eq!(reskeys.len(), i + 1);
    }
}

#[test]
fn lotable_replace_with_updates_and_removes() {
    let mut t: LOTable<String, u64> = LOTable::with_capacity(8);
    assert_eq!(t.replace_with(&"c".to_string(), |cur| Some(cur.unwrap_or(0) + 5)), Ok(Some(5)));
    assert_eq!(t.replace_with(&"c".to_string(), |cur| Some(cur.unwrap_or(0) + 5)), Ok(Some(10)));
    assert_eq!(t.get(&"c".to_string()), Some(10));
    assert_eq!(t.replace_with(&"c".to_string(), |_| None), Ok(None));
    assert!(!t.contains_key(&"c".to_string()));
}
