//! A lock-style bounded queue with the same burst interface as the ring
//! buffer core, kept as a simple baseline for comparison.

use vstd::prelude::*;

verus! {

/// A capacity-bounded first-in/first-out queue.
pub struct RingBuffer<T: Copy> {
    queue: std::collections::VecDeque<T>,
    capacity: usize,
}

impl<T: Copy> RingBuffer<T> {
    /// The queue never holds more than its fixed capacity.
    pub closed spec fn inv(&self) -> bool {
        self.queue@.len() <= self.capacity
    }

    /// The buffered elements, oldest first.
    pub closed spec fn contents(&self) -> Seq<T> {
        self.queue@
    }

    /// The fixed bound set at construction.
    pub closed spec fn capacity(&self) -> nat {
        self.capacity as nat
    }

    pub fn new(capacity: usize) -> (buffer: Self)
        ensures
            buffer.inv(),
            buffer.capacity() == capacity,
            buffer.contents() == Seq::<T>::empty(),
    {
        RingBuffer { queue: std::collections::VecDeque::with_capacity(capacity), capacity }
    }

    /// Append a burst.  All of `buffer` is pushed and its length returned
    /// when the whole burst fits under the capacity; otherwise nothing is
    /// pushed and the result is `0` — never a partial burst.
    pub fn write(&mut self, buffer: &[T]) -> (count: usize)
        requires
            old(self).inv(),
        ensures
            final(self).inv(),
            final(self).capacity() == old(self).capacity(),
            count == buffer@.len() || count == 0,
            if old(self).contents().len() + buffer@.len() <= old(self).capacity() {
                final(self).contents() == old(self).contents() + buffer@ && count == buffer@.len()
            } else {
                final(self).contents() == old(self).contents() && count == 0
            },
    {
        let ghost prev = self.queue@;
        let available = self.capacity - self.queue.len();
        let burst = buffer.len();
        if available >= burst {
            let mut index: usize = 0;
            while index < burst
                invariant
                    index <= burst,
                    burst == buffer@.len(),
                    self.capacity == old(self).capacity,
                    prev.len() + burst <= self.capacity,
                    self.queue@ == prev + buffer@.take(index as int),
                decreases burst - index,
            {
                self.queue.push_back(buffer[index]);
                proof {
                    assert(prev + buffer@.take(index as int) + seq![buffer@[index as int]] =~= prev
                        + buffer@.take(index as int + 1));
                }
                index = index + 1;
            }
            proof {
                assert(prev + buffer@.take(burst as int) =~= prev + buffer@);
            }
            burst
        } else {
            0
        }
    }

    /// Remove a burst.  The whole of `buffer` is overwritten with the oldest
    /// queued elements, in arrival order, and its length returned, when that
    /// many elements are queued; otherwise `buffer` is untouched and the
    /// result is `0` — never a partial burst.
    pub fn read(&mut self, buffer: &mut Vec<T>) -> (count: usize)
        requires
            old(self).inv(),
        ensures
            final(self).inv(),
            final(self).capacity() == old(self).capacity(),
            final(buffer)@.len() == old(buffer)@.len(),
            count == old(buffer)@.len() || count == 0,
            if old(buffer)@.len() <= old(self).contents().len() {
                final(buffer)@ == old(self).contents().take(old(buffer)@.len() as int)
                    && final(self).contents() == old(self).contents().skip(
                    old(buffer)@.len() as int,
                ) && count == old(buffer)@.len()
            } else {
                final(buffer)@ == old(buffer)@ && final(self).contents() == old(self).contents()
                    && count == 0
            },
    {
        let ghost prev = self.queue@;
        let ghost prev_out = buffer@;
        let filled = self.queue.len();
        let burst = buffer.len();
        if filled >= burst {
            let mut index: usize = 0;
            while index < burst
                invariant
                    index <= burst,
                    burst == prev_out.len(),
                    burst <= prev.len(),
                    self.capacity == old(self).capacity,
                    self.queue@ == prev.skip(index as int),
                    buffer@.len() == prev_out.len(),
                    forall|j: int| 0 <= j < index ==> buffer@[j] == #[trigger] prev[j],
                decreases burst - index,
            {
                let value = self.queue.pop_front().unwrap();
                buffer[index] = value;
                index = index + 1;
            }
            proof {
                assert(buffer@ =~= prev.take(burst as int));
            }
            burst
        } else {
            0
        }
    }
}

} // verus!
