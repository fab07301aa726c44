//! The single-producer/single-consumer ring buffer core.
//!
//! Fixed storage of `capacity` slots is walked by two free-running `u32`
//! cursors: `tail` counts elements produced, `head` counts elements consumed.
//! The element produced at (unbounded) count `c` lives in slot
//! `c mod capacity`; the cursors themselves wrap at the `u32` width, and only
//! their wrapping difference is ever used.  The invariant that makes the
//! scheme work is `tail - head <= capacity` (wraparound-aware): the producer
//! owns the slots of the counts in `[tail, tail + free)`, the consumer owns
//! those in `[head, tail)`, and the two ranges never overlap.
//!
//! The ghost model is a pair of histories: `produced`, every element ever
//! written, and `consumed`, every element ever handed out.  `consumed` is
//! always a prefix of `produced` — nothing is lost, duplicated or reordered —
//! and the elements still buffered are exactly the suffix of `produced` that
//! has not been consumed yet.

use crate::cursor::{
    cursor_span, lemma_wrapped_add_exact, lemma_wrapped_sub_exact, reader_grant, wrapped,
    writer_grant,
};
use vstd::arithmetic::div_mod::{
    lemma_add_mod_noop, lemma_fundamental_div_mod, lemma_mod_division_less_than_divisor,
    lemma_mod_self_0, lemma_small_mod,
};
use vstd::prelude::*;
use vstd::wrapping::u32_specs;

verus! {

/// The only failure the buffer can report: construction could not obtain its
/// backing storage.  Insufficient room on a write and insufficient data on a
/// read are not errors; they come back as a transferred count of `0`.
#[derive(Debug)]
pub enum RingBufferError {
    Initialize,
}

/// The ghost model that the producer and consumer sides share.
pub trait BufferModel<T> {
    /// Well-formedness: the capacity bound and the cursor bookkeeping hold.
    spec fn inv(&self) -> bool;

    /// The fixed number of storage slots.
    spec fn capacity(&self) -> nat;

    /// Every element ever written, oldest first.
    spec fn produced(&self) -> Seq<T>;

    /// Every element ever handed to the consumer, oldest first.
    spec fn consumed(&self) -> Seq<T>;

    /// The wrapped `u32` value the consumer cursor currently shows.
    spec fn head_cursor(&self) -> u32;

    /// The wrapped `u32` value the producer cursor currently shows.
    spec fn tail_cursor(&self) -> u32;
}

/// The producer side: burst writes that either transfer everything or
/// nothing.
pub trait BufferWriter<T: Copy>: BufferModel<T> {
    /// How much of a burst of `size` elements may be written right now,
    /// together with the producer cursor it would start at.  The burst is
    /// granted in full exactly when that many slots are free, else the grant
    /// is `0`.
    fn available(&self, size: u32) -> (grant: (u32, u32))
        requires
            self.inv(),
        ensures
            grant.1 == self.tail_cursor(),
            grant.0 == if self.capacity() - (self.produced().len() - self.consumed().len())
                >= size as nat {
                size
            } else {
                0u32
            },
    ;

    /// Append a burst.  All of `elements` is written and its length returned
    /// when enough slots are free; otherwise nothing is written and the
    /// result is `0` — never a partial burst.  (A burst longer than
    /// `u32::MAX` cannot fit under any capacity and is refused the same
    /// way.)  The producer cursor advances by exactly the count returned,
    /// and what was already written or consumed is untouched.
    fn write(&mut self, elements: &[T]) -> (count: u32)
        requires
            old(self).inv(),
        ensures
            final(self).inv(),
            final(self).capacity() == old(self).capacity(),
            final(self).consumed() == old(self).consumed(),
            final(self).head_cursor() == old(self).head_cursor(),
            count == elements@.len() || count == 0,
            if old(self).produced().len() - old(self).consumed().len() + elements@.len()
                <= old(self).capacity() {
                final(self).produced() == old(self).produced() + elements@
                    && count == elements@.len()
            } else {
                final(self).produced() == old(self).produced() && count == 0
            },
            final(self).tail_cursor() == u32_specs::wrapping_add(old(self).tail_cursor(), count),
            old(self).produced().is_prefix_of(final(self).produced()),
    ;
}

/// The consumer side: burst reads that either fill the whole output buffer
/// or leave it untouched.
pub trait BufferReader<T: Copy>: BufferModel<T> {
    /// How much of a burst of `size` elements may be read right now, together
    /// with the consumer cursor it would start at.  The burst is granted in
    /// full exactly when that many elements are buffered, else the grant is
    /// `0`.
    fn filled(&self, size: u32) -> (grant: (u32, u32))
        requires
            self.inv(),
        ensures
            grant.1 == self.head_cursor(),
            grant.0 == if self.produced().len() - self.consumed().len() >= size as nat {
                size
            } else {
                0u32
            },
    ;

    /// Remove a burst.  The whole of `out` is overwritten with the oldest
    /// buffered elements, in production order, and its length returned, when
    /// that many elements are buffered; otherwise `out` is untouched and the
    /// result is `0` — never a partial burst.  (An output buffer longer than
    /// `u32::MAX` can never be filled and is refused the same way.)  The
    /// consumer cursor advances by exactly the count returned, and the
    /// produced history is untouched.
    fn read(&mut self, out: &mut Vec<T>) -> (count: u32)
        requires
            old(self).inv(),
        ensures
            final(self).inv(),
            final(self).capacity() == old(self).capacity(),
            final(self).produced() == old(self).produced(),
            final(self).tail_cursor() == old(self).tail_cursor(),
            final(out)@.len() == old(out)@.len(),
            count == old(out)@.len() || count == 0,
            if old(out)@.len() <= old(self).produced().len() - old(self).consumed().len() {
                final(out)@ == old(self).produced().subrange(
                    old(self).consumed().len() as int,
                    old(self).consumed().len() + old(out)@.len() as int,
                ) && final(self).consumed() == old(self).consumed() + final(out)@
                    && count == old(out)@.len()
            } else {
                final(out)@ == old(out)@ && final(self).consumed() == old(self).consumed()
                    && count == 0
            },
            final(self).head_cursor() == u32_specs::wrapping_add(old(self).head_cursor(), count),
            old(self).consumed().is_prefix_of(final(self).consumed()),
    ;
}

/// The shared state of one producer/consumer pair: storage plus the two
/// cursors, together with the ghost histories that specify it.
pub struct RingBuffer<T: Copy> {
    /// The slots.  Storage is reserved once at construction and a slot is
    /// first allocated when it is first published, so the length is the
    /// number of slots published so far, up to `capacity`.
    storage: Vec<T>,
    /// The fixed number of slots, set at construction.
    capacity: u32,
    /// Wrapped count of elements consumed; advanced only by reads.
    head: u32,
    /// Wrapped count of elements produced; advanced only by writes.
    tail: u32,
    /// `consumed.len() mod capacity`: the slot the next read starts at.
    head_idx: u32,
    /// `produced.len() mod capacity`: the slot the next write starts at.
    tail_idx: u32,
    /// History of every element written.
    produced: Ghost<Seq<T>>,
    /// History of every element read.
    consumed: Ghost<Seq<T>>,
}

impl<T: Copy> BufferModel<T> for RingBuffer<T> {
    closed spec fn inv(&self) -> bool {
        let cap = self.capacity as nat;
        let p = self.produced@.len();
        let c = self.consumed@.len();
        &&& c <= p
        &&& p - c <= cap
        &&& self.consumed@ == self.produced@.take(c as int)
        &&& self.storage@.len() == if p <= cap {
            p
        } else {
            cap
        }
        &&& self.head == wrapped(c)
        &&& self.tail == wrapped(p)
        &&& self.head_idx as nat == if cap == 0 {
            0nat
        } else {
            c % cap
        }
        &&& self.tail_idx as nat == if cap == 0 {
            0nat
        } else {
            p % cap
        }
        &&& forall|i: int|
            c <= i < p ==> self.storage@[i % cap as int] == #[trigger] self.produced@[i]
    }

    closed spec fn capacity(&self) -> nat {
        self.capacity as nat
    }

    closed spec fn produced(&self) -> Seq<T> {
        self.produced@
    }

    closed spec fn consumed(&self) -> Seq<T> {
        self.consumed@
    }

    closed spec fn head_cursor(&self) -> u32 {
        self.head
    }

    closed spec fn tail_cursor(&self) -> u32 {
        self.tail
    }
}

impl<T: Copy> RingBuffer<T> {
    /// The elements currently buffered, oldest first: what was produced but
    /// not yet consumed.
    pub open spec fn unread(&self) -> Seq<T> {
        self.produced().skip(self.consumed().len() as int)
    }

    /// Build a buffer of `capacity` slots, connected and empty.  The whole
    /// backing store is reserved up front; construction cannot fail in any
    /// other way, so the result is always `Ok`.  A capacity of `0` is legal:
    /// every write and every read on such a buffer transfers `0` elements.
    pub fn new(capacity: u32) -> (result: Result<Self, RingBufferError>)
        ensures
            result is Ok,
            result matches Ok(buffer) ==> {
                &&& buffer.inv()
                &&& buffer.capacity() == capacity
                &&& buffer.produced() == Seq::<T>::empty()
                &&& buffer.consumed() == Seq::<T>::empty()
                &&& buffer.head_cursor() == 0
                &&& buffer.tail_cursor() == 0
            },
    {
        let storage: Vec<T> = Vec::with_capacity(capacity as usize);
        let buffer = RingBuffer {
            storage,
            capacity,
            head: 0,
            tail: 0,
            head_idx: 0,
            tail_idx: 0,
            produced: Ghost(Seq::empty()),
            consumed: Ghost(Seq::empty()),
        };
        proof {
            lemma_small_mod(0nat, cursor_span());
            if capacity > 0 {
                lemma_small_mod(0nat, capacity as nat);
            }
            assert(buffer.consumed@ =~= buffer.produced@.take(0));
        }
        Ok(buffer)
    }

    /// Nothing is lost, duplicated or reordered: in every reachable state the
    /// consumed history is exactly a prefix of the produced history, and the
    /// produced history is exactly what was consumed followed by what is
    /// still buffered.  The sequence handed out by the reads is therefore a
    /// prefix-consistent, gap-free, order-preserving copy of the sequence the
    /// writes appended.
    pub proof fn lemma_no_loss(&self)
        requires
            self.inv(),
        ensures
            self.consumed() == self.produced().take(self.consumed().len() as int),
            self.consumed().is_prefix_of(self.produced()),
            self.produced() == self.consumed() + self.unread(),
    {
        let c = self.consumed@.len() as int;
        assert(self.produced@ =~= self.produced@.take(c) + self.produced@.skip(c));
    }

    /// Once as many elements have been consumed as produced, the two
    /// histories are identical: everything written has come back out, in
    /// order.
    pub proof fn lemma_round_trip(&self)
        requires
            self.inv(),
            self.consumed().len() == self.produced().len(),
        ensures
            self.consumed() == self.produced(),
    {
        let c = self.consumed@.len() as int;
        assert(self.produced@.take(c) =~= self.produced@);
    }

    /// The capacity bound, stated on the cursors themselves: in every
    /// reachable state the wrapping difference `tail - head` is both the
    /// exact number of buffered elements and at most the capacity.
    pub proof fn lemma_capacity_never_exceeded(&self)
        requires
            self.inv(),
        ensures
            u32_specs::wrapping_sub(self.tail_cursor(), self.head_cursor()) == self.produced().len()
                - self.consumed().len(),
            u32_specs::wrapping_sub(self.tail_cursor(), self.head_cursor()) <= self.capacity(),
    {
        lemma_wrapped_sub_exact(self.consumed@.len(), self.produced@.len());
    }
}

impl<T: Copy> BufferWriter<T> for RingBuffer<T> {
    fn available(&self, size: u32) -> (grant: (u32, u32)) {
        proof {
            lemma_wrapped_sub_exact(self.consumed@.len(), self.produced@.len());
        }
        let granted = writer_grant(self.capacity, self.head, self.tail, size);
        (granted, self.tail)
    }

    fn write(&mut self, elements: &[T]) -> (count: u32) {
        let ghost prev = *self;
        if elements.len() > u32::MAX as usize {
            return 0;
        }
        let size = elements.len() as u32;
        let (granted, _cursor) = self.available(size);
        if granted == 0 {
            proof {
                if size == 0 {
                    assert(prev.produced@ + elements@ =~= prev.produced@);
                }
            }
            return 0;
        }
        let ghost cap = prev.capacity as nat;
        let ghost p = prev.produced@.len();
        let ghost c = prev.consumed@.len();
        let mut k: u32 = 0;
        let mut slot: u32 = self.tail_idx;
        while k < granted
            invariant
                prev.inv(),
                self.capacity == prev.capacity,
                self.head == prev.head,
                self.tail == prev.tail,
                self.head_idx == prev.head_idx,
                self.tail_idx == prev.tail_idx,
                self.produced == prev.produced,
                self.consumed == prev.consumed,
                cap == prev.capacity as nat,
                p == prev.produced@.len(),
                c == prev.consumed@.len(),
                0 < granted <= elements@.len() <= u32::MAX,
                p - c + granted <= cap,
                k <= granted,
                slot as nat == (p + k as nat) % cap,
                self.storage@.len() == if p + k as nat <= cap {
                    p + k as nat
                } else {
                    cap
                },
                forall|i: int|
                    c <= i < p ==> self.storage@[i % cap as int] == #[trigger] prev.produced@[i],
                forall|j: int|
                    0 <= j < k ==> self.storage@[(p + j) % cap as int] == #[trigger] elements@[j],
            decreases granted - k,
        {
            let ghost before = self.storage@;
            proof {
                assert(cap > 0);
                lemma_mod_division_less_than_divisor((p + k as nat) as int, cap as int);
                if (p + k as nat) < cap {
                    lemma_small_mod(p + k as nat, cap);
                }
            }
            let value = elements[k as usize];
            if (slot as usize) < self.storage.len() {
                self.storage[slot as usize] = value;
            } else {
                self.storage.push(value);
            }
            proof {
                assert(self.storage@.len() == if (p + k as nat + 1) <= cap {
                    p + k as nat + 1
                } else {
                    cap
                });
                assert forall|i: int| c <= i < p implies self.storage@[i % cap as int]
                    == #[trigger] prev.produced@[i] by {
                    lemma_slot_distinct(i as nat, p + k as nat, cap);
                    lemma_mod_division_less_than_divisor(i, cap as int);
                    if (p + k as nat) < cap {
                        lemma_small_mod(i as nat, cap);
                    }
                    assert(i % cap as int != slot as int);
                    assert(before[i % cap as int] == prev.produced@[i]);
                }
                assert forall|j: int| 0 <= j < k + 1 implies self.storage@[(p + j) % cap as int]
                    == #[trigger] elements@[j] by {
                    lemma_mod_division_less_than_divisor(p as int + j, cap as int);
                    if j < k {
                        lemma_slot_distinct((p + j) as nat, p + k as nat, cap);
                        if (p + k as nat) < cap {
                            lemma_small_mod((p + j) as nat, cap);
                        }
                        assert((p + j) % cap as int != slot as int);
                        assert(before[(p + j) % cap as int] == elements@[j]);
                    } else {
                        assert((p + j) % cap as int == slot as int);
                    }
                }
                lemma_mod_step(p + k as nat, cap);
            }
            slot = if slot + 1 == self.capacity {
                0
            } else {
                slot + 1
            };
            k = k + 1;
        }
        self.tail = self.tail.wrapping_add(granted);
        self.tail_idx = slot;
        self.produced = Ghost(prev.produced@ + elements@);
        proof {
            lemma_wrapped_add_exact(p, granted);
            assert(prev.consumed@ =~= self.produced@.take(c as int));
            assert forall|i: int| c <= i < p + granted implies self.storage@[i % cap as int]
                == #[trigger] self.produced@[i] by {
                lemma_mod_division_less_than_divisor(i, cap as int);
                if i < p {
                    assert(self.produced@[i] == prev.produced@[i]);
                    assert(self.storage@[i % cap as int] == prev.produced@[i]);
                } else {
                    assert(self.produced@[i] == elements@[i - p]);
                    assert(self.storage@[(p + (i - p)) % cap as int] == elements@[i - p]);
                    assert(p + (i - p) == i);
                }
            }
        }
        granted
    }
}

impl<T: Copy> BufferReader<T> for RingBuffer<T> {
    fn filled(&self, size: u32) -> (grant: (u32, u32)) {
        proof {
            lemma_wrapped_sub_exact(self.consumed@.len(), self.produced@.len());
        }
        let granted = reader_grant(self.head, self.tail, size);
        (granted, self.head)
    }

    fn read(&mut self, out: &mut Vec<T>) -> (count: u32) {
        let ghost prev = *self;
        let ghost prev_out = *out;
        if out.len() > u32::MAX as usize {
            return 0;
        }
        let size = out.len() as u32;
        let (granted, _cursor) = self.filled(size);
        if granted == 0 {
            proof {
                if size == 0 {
                    let c = prev.consumed@.len() as int;
                    assert(out@ =~= prev.produced@.subrange(c, c + 0));
                    assert(prev.consumed@ + out@ =~= prev.consumed@);
                }
            }
            return 0;
        }
        let ghost cap = prev.capacity as nat;
        let ghost p = prev.produced@.len();
        let ghost c = prev.consumed@.len();
        let mut k: u32 = 0;
        let mut slot: u32 = self.head_idx;
        while k < granted
            invariant
                prev.inv(),
                *self == prev,
                cap == prev.capacity as nat,
                p == prev.produced@.len(),
                c == prev.consumed@.len(),
                0 < granted <= u32::MAX,
                granted as nat == prev_out@.len(),
                c + granted <= p,
                k <= granted,
                slot as nat == (c + k as nat) % cap,
                out@.len() == prev_out@.len(),
                forall|j: int| 0 <= j < k ==> out@[j] == #[trigger] prev.produced@[c + j],
            decreases granted - k,
        {
            proof {
                assert(cap > 0);
                lemma_mod_division_less_than_divisor((c + k as nat) as int, cap as int);
                if p < cap {
                    lemma_small_mod((c + k as nat) as nat, cap);
                }
                assert(self.storage@[(c + k as nat) as int % cap as int] == prev.produced@[c + k]);
            }
            let value = self.storage[slot as usize];
            out[k as usize] = value;
            proof {
                lemma_mod_step(c + k as nat, cap);
            }
            slot = if slot + 1 == self.capacity {
                0
            } else {
                slot + 1
            };
            k = k + 1;
        }
        self.head = self.head.wrapping_add(granted);
        self.head_idx = slot;
        self.consumed = Ghost(prev.consumed@ + out@);
        proof {
            lemma_wrapped_add_exact(c, granted);
            assert(out@.len() == granted as nat);
            assert forall|j: int| 0 <= j < granted implies out@[j] == prev.produced@.subrange(
                c as int,
                c + granted,
            )[j] by {
                assert(out@[j] == prev.produced@[c + j]);
            }
            assert(out@ =~= prev.produced@.subrange(c as int, c + granted));
            assert(self.consumed@ =~= self.produced@.take(c + granted));
        }
        granted
    }
}

/// Stepping a count by one steps its slot by one, wrapping at `m`.
proof fn lemma_mod_step(x: nat, m: nat)
    requires
        m > 0,
    ensures
        (x + 1) % m == if x % m + 1 == m {
            0nat
        } else {
            (x % m + 1) as nat
        },
{
    lemma_mod_division_less_than_divisor(x as int, m as int);
    lemma_add_mod_noop(x as int, 1int, m as int);
    if m == 1 {
        lemma_mod_division_less_than_divisor(1int, 1int);
        lemma_mod_division_less_than_divisor((x + 1) as int, 1int);
    } else {
        lemma_small_mod(1nat, m);
        let s = x % m;
        if s + 1 == m {
            lemma_mod_self_0(m as int);
        } else {
            lemma_small_mod((s + 1) as nat, m);
        }
    }
}

/// Two counts that are less than `m` apart land in different slots: the live
/// window never collides with itself.
proof fn lemma_slot_distinct(i: nat, j: nat, m: nat)
    requires
        m > 0,
        i < j,
        j - i < m,
    ensures
        i % m != j % m,
{
    lemma_fundamental_div_mod(i as int, m as int);
    lemma_fundamental_div_mod(j as int, m as int);
    lemma_mod_division_less_than_divisor(i as int, m as int);
    lemma_mod_division_less_than_divisor(j as int, m as int);
    if i % m == j % m {
        let iq = i as int / m as int;
        let jq = j as int / m as int;
        vstd::arithmetic::mul::lemma_mul_is_distributive_sub(m as int, jq, iq);
        assert(j - i == m as int * (jq - iq));
        vstd::arithmetic::mul::lemma_mul_is_commutative(m as int, jq - iq);
        if jq - iq <= 0 {
            vstd::arithmetic::mul::lemma_mul_inequality(jq - iq, 0int, m as int);
        } else {
            vstd::arithmetic::mul::lemma_mul_inequality(1int, jq - iq, m as int);
        }
    }
}

} // verus!
