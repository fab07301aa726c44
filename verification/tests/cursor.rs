use spsc::cursor::{reader_grant, slot_index, writer_grant};

/// The wrapping difference of the cursors stays exact across the `u32`
/// overflow boundary, so grants keep working after either counter wraps.
#[test]
fn grants_across_cursor_overflow() {
    let head = u32::MAX - 1;
    let tail = head.wrapping_add(3);
    assert_eq!(tail, 1);

    assert_eq!(reader_grant(head, tail, 3), 3);
    assert_eq!(reader_grant(head, tail, 4), 0);

    assert_eq!(writer_grant(4, head, tail, 1), 1);
    assert_eq!(writer_grant(4, head, tail, 2), 0);
}

/// With equal cursors the buffer is empty: everything is free, nothing is
/// filled, wherever the cursors happen to stand.
#[test]
fn grants_on_empty_buffer() {
    for cursor in [0u32, 17, u32::MAX] {
        assert_eq!(reader_grant(cursor, cursor, 1), 0);
        assert_eq!(writer_grant(8, cursor, cursor, 8), 8);
        assert_eq!(writer_grant(8, cursor, cursor, 9), 0);
    }
}

/// Cursor values address storage modulo the capacity.
#[test]
fn slots_follow_cursor() {
    assert_eq!(slot_index(0, 4), 0);
    assert_eq!(slot_index(5, 4), 1);
    assert_eq!(slot_index(u32::MAX, 4), 3);
    assert_eq!(slot_index(7, 1), 0);
}
