use lever::sync::atomics::AtomicBox;

#[test]
fn atomic_arc_new() {
    let b = AtomicBox::new(1024);

    assert_eq!(*b.get(), 1024);
}

#[test]
fn atomic_arc_replace_with() {
    let value: i64 = 1024;
    let mut b = AtomicBox::new(value);

    b.replace_with(|x| *x * 2);

    assert_eq!(*b.get(), value * 2);
}

#[test]
fn atomic_arc_replace_with_ten_times() {
    let value = 1024;
    let mut b = AtomicBox::new(value);

    for _i in 0..10 {
        b.replace_with(|x| *x * 2);
    }

    assert_eq!(*b.get(), value * 2_i32.pow(10));
}

#[test]
fn atomic_arc_replace_instance() {
    let mut b = AtomicBox::new(1024);
    let b1 = &mut b;

    b1.replace_with(|x| *x * 2);

    assert_eq!(*b.get(), 2048);
}

#[test]
fn snapshot_outlives_replacement() {
    let mut b = AtomicBox::new(vec![1, 2, 3]);
    let before = b.get();

    b.replace_with(|x| {
        let mut nx = (*x).clone();
        nx.push(4);
        nx
    });

    assert_eq!(*before, vec![1, 2, 3]);
    assert_eq!(*b.get(), vec![1, 2, 3, 4]);
}

#[test]
fn extract_unique_value() {
    let b = AtomicBox::new(7_u32);
    match b.extract() {
        Ok(v) => assert_eq!(v, 7),
        Err(_) => panic!("a cell with no snapshot alive is the unique owner"),
    }
}

#[test]
fn extract_refused_while_snapshot_alive() {
    let b = AtomicBox::new(7_u32);
    let snap = b.get();
    match b.extract() {
        Ok(_) => panic!("a snapshot is still alive"),
        Err(back) => assert_eq!(*back.get(), 7),
    }
    assert_eq!(*snap, 7);
}
