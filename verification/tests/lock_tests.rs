use shared_cache::lock::RwLockState;

#[test]
fn fresh_lock_is_unheld() {
    let lock = RwLockState::new();
    assert_eq!(lock.readers, 0);
    assert!(!lock.writer);
    assert!(!lock.poisoned);
}

#[test]
fn readers_share_and_exclude_writer() {
    let mut lock = RwLockState::new();
    assert!(lock.try_acquire_read());
    assert!(lock.try_acquire_read());
    assert!(lock.try_acquire_read());
    assert_eq!(lock.readers, 3);
    // A writer must wait for every shared holder to drain.
    assert!(!lock.try_acquire_write());
    lock.release_read();
    lock.release_read();
    assert!(!lock.try_acquire_write());
    lock.release_read();
    assert!(lock.try_acquire_write());
    // Never both kinds of accessor at once.
    assert!(!(lock.writer && lock.readers > 0));
}

#[test]
fn writer_excludes_readers_and_writers() {
    let mut lock = RwLockState::new();
    assert!(lock.try_acquire_write());
    assert!(!lock.try_acquire_read());
    assert!(!lock.try_acquire_write());
    assert!(!(lock.writer && lock.readers > 0));
    lock.release_write();
    assert!(lock.try_acquire_read());
}

#[test]
fn poisoned_lock_grants_nothing() {
    let mut lock = RwLockState::new();
    assert!(lock.try_acquire_write());
    lock.poison_write();
    assert!(lock.poisoned);
    assert!(!lock.try_acquire_read());
    assert!(!lock.try_acquire_write());
}

#[test]
fn interleaved_protocol_never_overlaps() {
    // Drive an arbitrary interleaving of acquire and release attempts and
    // check the mutual exclusion invariant at every step, in the spirit of
    // instrumenting a lock with counters.
    let mut lock = RwLockState::new();
    let mut granted_reads: u32 = 0;
    for step in 0..200u32 {
        match step % 7 {
            0 | 3 => {
                if lock.try_acquire_read() {
                    granted_reads += 1;
                }
            }
            1 | 4 => {
                let _ = lock.try_acquire_write();
            }
            2 => {
                if granted_reads > 0 {
                    lock.release_read();
                    granted_reads -= 1;
                }
            }
            5 => {
                if lock.writer {
                    lock.release_write();
                }
            }
            _ => {}
        }
        assert!(!(lock.writer && lock.readers > 0));
        assert_eq!(lock.readers as u32, granted_reads);
    }
}
