use lever::sync::rerwlock::{Container, ReentrantRwLock, ThreadRef};

const ME: u64 = 1;
const OTHER: u64 = 2;

#[test]
fn rwlock_create_and_reacquire_write_lock() {
    let mut rew = ReentrantRwLock::new(144);
    let data = rew.try_read(ME);

    assert!(data);

    assert!(rew.try_read(ME));
    rew.release_read(ME);
    assert!(rew.try_read(ME));
    rew.release_read(ME);

    rew.release_read(ME);

    assert!(rew.try_write(ME));
    rew.release_write(ME);
    assert!(rew.try_read(ME));
    rew.release_read(ME);
}

#[test]
fn rwlock_create_and_reacquire_read_lock() {
    let mut rew = ReentrantRwLock::new(144);
    let data = rew.try_read(ME);

    assert!(data);

    assert!(rew.try_read(ME));
    rew.release_read(ME);
    assert!(rew.try_read(ME));
    rew.release_read(ME);

    rew.release_read(ME);

    assert!(rew.try_read(ME));
    rew.release_read(ME);
    assert!(rew.try_write(ME));
    rew.release_write(ME);
}

#[test]
fn rwlock_reacquire_without_drop() {
    let mut rew = ReentrantRwLock::new(144);
    assert!(rew.try_read(ME));
    assert_eq!(*rew.get(), 144);

    assert!(rew.try_read(ME));
    rew.release_read(ME);
    assert!(rew.try_read(ME));
    rew.release_read(ME);
    assert!(rew.try_write(ME));
    rew.release_write(ME);

    // Write data while holding a read.
    assert!(rew.try_write(ME));
    *rew.get_mut() += 288;

    // Read after write.
    assert!(rew.try_read(ME));
    assert_eq!(*rew.get(), 432);
}

#[test]
fn writer_excludes_other_threads() {
    let mut rew = ReentrantRwLock::new(0);
    assert!(rew.try_write(ME));
    assert!(rew.is_locked(OTHER));
    assert!(!rew.is_locked(ME));
    assert!(!rew.try_read(OTHER));
    assert!(!rew.try_write(OTHER));
    assert!(rew.is_writer_held_by_current(ME));
    assert!(!rew.is_writer_held_by_current(OTHER));
    assert!(rew.release_write(ME));
    assert!(rew.try_read(OTHER));
    // Another thread's read blocks promotion.
    assert!(rew.try_read(ME));
    assert!(!rew.try_write(ME));
    assert!(rew.release_read(OTHER));
    assert!(rew.try_write(ME));
    assert_eq!(rew.into_inner(), 0);
}

#[test]
fn release_without_hold_is_refused() {
    let mut rew = ReentrantRwLock::new(1);
    assert!(!rew.release_read(ME));
    assert!(!rew.release_write(ME));
}

#[test]
fn readers_from_single_thread_cases() {
    let mut c = Container::new();
    assert_eq!(c.readers_from_single_thread(), (true, None));
    assert!(c.try_lock_read(ME));
    assert!(c.try_lock_read(ME));
    assert_eq!(c.readers_from_single_thread(), (true, Some(ME)));
    assert!(c.try_lock_read(OTHER));
    assert_eq!(c.readers_from_single_thread(), (false, None));
    assert!(c.try_release_read(OTHER));
    assert_eq!(c.readers_from_single_thread(), (true, Some(ME)));
    assert!(!c.writer_from_current_thread(ME));
}

#[test]
fn thread_ref_counts() {
    let mut t = ThreadRef::new(ME, 0);
    assert!(t.is_current(ME));
    assert!(!t.is_positive());
    assert!(t.try_inc(ME));
    assert!(!t.try_inc(OTHER));
    assert!(t.is_positive());
    assert!(t.try_dec(ME));
    assert!(!t.try_dec(ME));
}
