//! Wraparound arithmetic on the monotonic cursors.
//!
//! `head` and `tail` are free-running `u32` counters: they only ever grow, and
//! they are allowed to overflow their width.  Only their difference carries
//! meaning, so every computation on them is done with wrapping arithmetic.
//! This module relates the wrapped counters to the mathematical (unbounded)
//! counts of elements consumed and produced, and provides the grant decisions
//! that the producer and consumer sides make before they touch storage.

use vstd::arithmetic::div_mod::{
    lemma_add_mod_noop, lemma_mod_add_multiples_vanish, lemma_mod_division_less_than_divisor,
    lemma_small_mod, lemma_sub_mod_noop,
};
use vstd::prelude::*;
use vstd::wrapping::u32_specs;

verus! {

/// The number of distinct values a `u32` cursor can take.
pub open spec fn cursor_span() -> nat {
    0x1_0000_0000
}

/// The `u32` value that a mathematical count `c` shows as once it has been
/// truncated to the cursor width.
pub open spec fn wrapped(c: nat) -> u32 {
    (c % cursor_span()) as u32
}

/// As long as two counts are no further apart than `u32::MAX`, wrapping
/// subtraction of their wrapped cursors recovers their exact distance.  This
/// is why `tail - head` is meaningful even after either counter overflows.
pub proof fn lemma_wrapped_sub_exact(c: nat, p: nat)
    requires
        c <= p,
        p - c < cursor_span(),
    ensures
        u32_specs::wrapping_sub(wrapped(p), wrapped(c)) == p - c,
{
    let m = cursor_span() as int;
    lemma_mod_division_less_than_divisor(p as int, m);
    lemma_mod_division_less_than_divisor(c as int, m);
    lemma_sub_mod_noop(p as int, c as int, m);
    lemma_small_mod((p - c) as nat, cursor_span());
    let d = p as int % m - c as int % m;
    if d >= 0 {
        lemma_small_mod(d as nat, cursor_span());
    } else {
        lemma_mod_add_multiples_vanish(d, m);
        lemma_small_mod((d + m) as nat, cursor_span());
    }
}

/// Advancing a cursor by `n` commutes with wrapping: the wrapped view of
/// `c + n` is exactly the wrapping addition of `n` to the wrapped view of `c`.
pub proof fn lemma_wrapped_add_exact(c: nat, n: u32)
    ensures
        wrapped((c + n) as nat) == u32_specs::wrapping_add(wrapped(c), n),
{
    let m = cursor_span() as int;
    lemma_mod_division_less_than_divisor(c as int, m);
    lemma_add_mod_noop(c as int, n as int, m);
    lemma_small_mod(n as nat, cursor_span());
    let s = c as int % m + n;
    if s <= u32::MAX {
        lemma_small_mod(s as nat, cursor_span());
    } else {
        lemma_mod_add_multiples_vanish(s - m, m);
        lemma_small_mod((s - m) as nat, cursor_span());
    }
}

/// Producer-side grant decision.  `head` and `tail` are the wrapped cursors
/// as last observed; the free room is `capacity` minus the wrapped distance
/// between them.  A burst of `size` elements is granted in full or not at
/// all.
pub fn writer_grant(capacity: u32, head: u32, tail: u32, size: u32) -> (granted: u32)
    requires
        u32_specs::wrapping_sub(tail, head) <= capacity,
    ensures
        granted == if capacity - u32_specs::wrapping_sub(tail, head) >= size {
            size
        } else {
            0u32
        },
{
    let pending = tail.wrapping_sub(head);
    let free = capacity - pending;
    if free >= size {
        size
    } else {
        0
    }
}

/// Consumer-side grant decision: a burst of `size` elements is granted
/// exactly when that many elements sit between the two cursors.
pub fn reader_grant(head: u32, tail: u32, size: u32) -> (granted: u32)
    ensures
        granted == if u32_specs::wrapping_sub(tail, head) >= size {
            size
        } else {
            0u32
        },
{
    let pending = tail.wrapping_sub(head);
    if pending >= size {
        size
    } else {
        0
    }
}

/// The storage slot addressed by a cursor value: cursors walk the storage
/// array modulo its length.  A zero-capacity buffer has no slots, so callers
/// must have been granted at least one element before asking for a slot.
pub fn slot_index(cursor: u32, capacity: u32) -> (slot: u32)
    requires
        capacity > 0,
    ensures
        slot == cursor % capacity,
{
    cursor % capacity
}

} // verus!
