use shared_cache::cache::ThreadSafeCache;

// The demonstration race, replayed deterministically: one writer populates
// key0..key4 at a 100ms cadence while three readers cycle over the same
// keys at a 50ms cadence, so half of the reader ticks fall before the next
// write. Early reads legitimately find nothing; once the writer has
// finished, every reader must observe every written value, and the size is
// exactly the number of distinct keys written.
#[test]
fn end_to_end_writer_reader_scenario() {
    let mut cache = ThreadSafeCache::new();
    let mut observed = vec![Vec::new(), Vec::new(), Vec::new()];

    // One tick per 50ms reader step; the writer acts on every other tick.
    for tick in 0..10 {
        if tick % 2 == 0 {
            let i = tick / 2;
            cache.write(format!("key{}", i), format!("value{}", i));
        }
        for log in observed.iter_mut() {
            let j = tick; // each reader is on its tick-th iteration
            let value = cache.read(&format!("key{}", j % 5));
            // A racing read sees either nothing yet or the exact value.
            assert!(
                value == "Not found" || value == format!("value{}", j % 5),
                "unexpected value {:?} at tick {}",
                value,
                tick
            );
            log.push(value);
        }
    }

    // The keys the readers outran were read before they existed.
    for log in observed.iter() {
        assert_eq!(log[1], "Not found"); // key1 is written at tick 2
        assert_eq!(log[0], "value0");
    }

    // After the writer has completed, every reader observes every value.
    for _reader in 0..3 {
        for i in 0..5 {
            assert_eq!(cache.read(&format!("key{}", i)), format!("value{}", i));
        }
    }

    assert_eq!(cache.size(), 5);
}
