//! A bounded single-producer/single-consumer ring buffer.
//!
//! The heart of the crate is [`ring_buffer::RingBuffer`]: fixed storage plus a
//! pair of free-running `u32` cursors, `head` (elements consumed) and `tail`
//! (elements produced).  Transfers are all-or-nothing bursts: a write or a
//! read either moves the whole burst or moves nothing and reports `0`.
//!
//! [`cursor`] holds the wraparound arithmetic on the cursors together with
//! the grant decisions that both sides make before touching storage.
//! [`vecdeque`] is a lock-style bounded queue with the same burst interface,
//! kept as a simple baseline for comparison.

pub mod cursor;
pub mod ring_buffer;
pub mod vecdeque;
