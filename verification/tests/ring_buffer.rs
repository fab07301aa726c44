use spsc::ring_buffer::{BufferReader, BufferWriter, RingBuffer};

/// Capacity 4, the full write/read interplay: fill, bounce, drain.
#[test]
fn scenario_capacity_four() {
    let mut rb = RingBuffer::<u64>::new(4).unwrap();

    assert_eq!(rb.write(&[1, 2, 3, 4]), 4);

    assert_eq!(rb.write(&[5]), 0);

    let mut buf = vec![0u64; 2];
    assert_eq!(rb.read(&mut buf), 2);
    assert_eq!(buf, vec![1, 2]);

    assert_eq!(rb.write(&[5]), 1);

    let mut buf = vec![0u64; 3];
    assert_eq!(rb.read(&mut buf), 3);
    assert_eq!(buf, vec![3, 4, 5]);

    let mut buf = vec![0u64; 1];
    assert_eq!(rb.read(&mut buf), 0);
    assert_eq!(buf, vec![0]);
}

/// A write either transfers the whole burst or nothing.
#[test]
fn all_or_nothing_write() {
    let mut rb = RingBuffer::<u32>::new(3).unwrap();

    assert_eq!(rb.write(&[10, 20, 30, 40]), 0);
    assert_eq!(rb.write(&[10, 20, 30]), 3);
    assert_eq!(rb.write(&[40]), 0);

    let mut buf = vec![0u32; 3];
    assert_eq!(rb.read(&mut buf), 3);
    assert_eq!(buf, vec![10, 20, 30]);
}

/// A read either fills the whole output buffer or leaves it untouched.
#[test]
fn all_or_nothing_read() {
    let mut rb = RingBuffer::<u32>::new(4).unwrap();
    assert_eq!(rb.write(&[7, 8]), 2);

    let mut buf = vec![99u32; 3];
    assert_eq!(rb.read(&mut buf), 0);
    assert_eq!(buf, vec![99, 99, 99]);

    let mut buf = vec![99u32; 2];
    assert_eq!(rb.read(&mut buf), 2);
    assert_eq!(buf, vec![7, 8]);
}

/// A zero-capacity buffer is legal: every transfer reports 0.
#[test]
fn zero_capacity() {
    let mut rb = RingBuffer::<u64>::new(0).unwrap();

    assert_eq!(rb.write(&[1]), 0);
    let mut buf = vec![0u64; 1];
    assert_eq!(rb.read(&mut buf), 0);
    assert_eq!(buf, vec![0]);

    let (granted, cursor) = rb.available(1);
    assert_eq!((granted, cursor), (0, 0));
    let (granted, cursor) = rb.filled(1);
    assert_eq!((granted, cursor), (0, 0));
}

/// An empty burst never transfers anything, full buffer or not.
#[test]
fn empty_burst() {
    let mut rb = RingBuffer::<u64>::new(2).unwrap();
    assert_eq!(rb.write(&[]), 0);
    let mut buf: Vec<u64> = vec![];
    assert_eq!(rb.read(&mut buf), 0);

    assert_eq!(rb.write(&[1, 2]), 2);
    assert_eq!(rb.write(&[]), 0);
}

/// `available` and `filled` report the grant and the cursor the burst
/// would start at.
#[test]
fn grants_and_cursors() {
    let mut rb = RingBuffer::<u64>::new(4).unwrap();

    assert_eq!(rb.available(4), (4, 0));
    assert_eq!(rb.available(5), (0, 0));
    assert_eq!(rb.filled(1), (0, 0));

    assert_eq!(rb.write(&[1, 2, 3]), 3);
    assert_eq!(rb.available(1), (1, 3));
    assert_eq!(rb.available(2), (0, 3));
    assert_eq!(rb.filled(3), (3, 0));
    assert_eq!(rb.filled(4), (0, 0));

    let mut buf = vec![0u64; 2];
    assert_eq!(rb.read(&mut buf), 2);
    assert_eq!(rb.available(3), (3, 3));
    assert_eq!(rb.filled(1), (1, 2));
}

/// The cursors keep running while the storage wraps around many times.
#[test]
fn storage_wraparound() {
    let mut rb = RingBuffer::<u64>::new(3).unwrap();
    let mut expected: u64 = 0;
    for round in 0..50u64 {
        let burst = [2 * round, 2 * round + 1];
        assert_eq!(rb.write(&burst), 2);
        let mut buf = vec![0u64; 2];
        assert_eq!(rb.read(&mut buf), 2);
        assert_eq!(buf, vec![expected, expected + 1]);
        expected += 2;
    }
}

/// Producing 0..N with varying burst sizes and consuming with other burst
/// sizes yields exactly 0..N on the reader side.
#[test]
fn round_trip_mixed_bursts() {
    let total: u64 = 1000;
    let source: Vec<u64> = (0..total).collect();
    let mut rb = RingBuffer::<u64>::new(16).unwrap();

    let write_bursts = [1usize, 3, 5, 7, 16];
    let read_bursts = [2usize, 4, 6, 1];

    let mut collected: Vec<u64> = Vec::new();
    let mut written: usize = 0;
    let mut wb: usize = 0;
    let mut rbi: usize = 0;
    while collected.len() < total as usize {
        if written < source.len() {
            let want = write_bursts[wb % write_bursts.len()].min(source.len() - written);
            wb += 1;
            let n = rb.write(&source[written..written + want]);
            assert!(n == 0 || n == want as u32);
            written += n as usize;
        }
        let want = read_bursts[rbi % read_bursts.len()].min(total as usize - collected.len());
        rbi += 1;
        let mut buf = vec![0u64; want];
        let n = rb.read(&mut buf);
        assert!(n == 0 || n == want as u32);
        if n > 0 {
            collected.extend_from_slice(&buf);
        }
    }
    assert_eq!(collected, source);
}

/// Construction always succeeds and starts empty.
#[test]
fn construction_reports_ok() {
    let rb = RingBuffer::<u8>::new(1);
    assert!(rb.is_ok());
    let mut rb = rb.unwrap();
    assert_eq!(rb.filled(0), (0, 0));
    assert_eq!(rb.write(&[42]), 1);
    let mut buf = vec![0u8; 1];
    assert_eq!(rb.read(&mut buf), 1);
    assert_eq!(buf, vec![42]);
}
