use spsc::vecdeque::RingBuffer;

/// The baseline queue honours the same burst interface: fill, bounce, drain.
#[test]
fn baseline_scenario_capacity_four() {
    let mut rb = RingBuffer::<u64>::new(4);

    assert_eq!(rb.write(&[1, 2, 3, 4]), 4);
    assert_eq!(rb.write(&[5]), 0);

    let mut buf = vec![0u64; 2];
    assert_eq!(rb.read(&mut buf), 2);
    assert_eq!(buf, vec![1, 2]);

    assert_eq!(rb.write(&[5]), 1);

    let mut buf = vec![0u64; 3];
    assert_eq!(rb.read(&mut buf), 3);
    assert_eq!(buf, vec![3, 4, 5]);

    let mut buf = vec![0u64; 1];
    assert_eq!(rb.read(&mut buf), 0);
}

/// Writes on the baseline are all-or-nothing against the fixed capacity.
#[test]
fn baseline_all_or_nothing() {
    let mut rb = RingBuffer::<u32>::new(2);
    assert_eq!(rb.write(&[1, 2, 3]), 0);
    assert_eq!(rb.write(&[1, 2]), 2);
    assert_eq!(rb.write(&[3]), 0);

    let mut buf = vec![0u32; 3];
    assert_eq!(rb.read(&mut buf), 0);
    assert_eq!(buf, vec![0, 0, 0]);
    let mut buf = vec![0u32; 2];
    assert_eq!(rb.read(&mut buf), 2);
    assert_eq!(buf, vec![1, 2]);
}

/// A zero-capacity baseline queue transfers nothing.
#[test]
fn baseline_zero_capacity() {
    let mut rb = RingBuffer::<u64>::new(0);
    assert_eq!(rb.write(&[1]), 0);
    let mut buf = vec![0u64; 1];
    assert_eq!(rb.read(&mut buf), 0);
}

/// Elements come back out in arrival order across many refills.
#[test]
fn baseline_order_preserved() {
    let mut rb = RingBuffer::<u64>::new(8);
    let mut expected: u64 = 0;
    for round in 0..20u64 {
        let burst = [3 * round, 3 * round + 1, 3 * round + 2];
        assert_eq!(rb.write(&burst), 3);
        let mut buf = vec![0u64; 3];
        assert_eq!(rb.read(&mut buf), 3);
        assert_eq!(buf, vec![expected, expected + 1, expected + 2]);
        expected += 3;
    }
}
