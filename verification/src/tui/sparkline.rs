//! The token counts of the latest requests.
use std::collections::VecDeque;
use vstd::prelude::*;

verus! {

/// A ring buffer that keeps the latest values.
pub struct TokenHistory {
    buffer: VecDeque<u64>,
    capacity: usize,
}

/// `values` with `value` behind them and, where there were `capacity` or more
/// of them already, without the first.
pub open spec fn pushed(values: Seq<u64>, capacity: nat, value: u64) -> Seq<u64> {
    if values.len() >= capacity && values.len() > 0 {
        values.skip(1).push(value)
    } else {
        values.push(value)
    }
}

impl View for TokenHistory {
    type V = Seq<u64>;

    closed spec fn view(&self) -> Seq<u64> {
        self.buffer@
    }
}

impl TokenHistory {
    /// How many values are kept, where it is not zero.
    pub closed spec fn capacity(&self) -> nat {
        self.capacity as nat
    }

    /// A history without values.
    pub fn new(capacity: usize) -> (r: Self)
        requires
            capacity * 8 <= isize::MAX,
        ensures
            r@ == Seq::<u64>::empty(),
            r.capacity() == capacity,
    {
        TokenHistory { buffer: VecDeque::with_capacity(capacity), capacity }
    }

    /// Adds a value. In a full history it takes the place of the oldest one.
    pub fn push(&mut self, value: u64)
        ensures
            final(self)@ == pushed(old(self)@, old(self).capacity(), value),
            final(self).capacity() == old(self).capacity(),
    {
        let ghost before = self.buffer@;
        if self.buffer.len() >= self.capacity {
            let _ = self.buffer.pop_front();
        }
        self.buffer.push_back(value);
        assert(self.buffer@ =~= pushed(before, self.capacity as nat, value));
    }

    /// The values, oldest first.
    pub fn as_vec(&self) -> (r: Vec<u64>)
        ensures
            r@ == self@,
    {
        let mut out: Vec<u64> = Vec::new();
        let mut i: usize = 0;
        while i < self.buffer.len()
            invariant
                i <= self.buffer@.len(),
                out@ == self.buffer@.take(i as int),
            decreases self.buffer@.len() - i,
        {
            out.push(self.buffer[i]);
            i = i + 1;
            assert(out@ =~= self.buffer@.take(i as int));
        }
        assert(self.buffer@.take(i as int) =~= self.buffer@);
        out
    }

    /// The number of values.
    pub fn len(&self) -> (r: usize)
        ensures
            r == self@.len(),
    {
        self.buffer.len()
    }
}

/// The history after a run of values has been pushed onto an empty one.
pub open spec fn pushed_all(values: Seq<u64>, capacity: nat) -> Seq<u64>
    decreases values.len(),
{
    if values.len() == 0 {
        Seq::empty()
    } else {
        pushed(pushed_all(values.drop_last(), capacity), capacity, values.last())
    }
}

/// How many values a history keeps: as many as its capacity, but the latest in
/// any case.
pub open spec fn kept_values(capacity: nat) -> nat {
    if capacity == 0 {
        1
    } else {
        capacity
    }
}

/// A history holds the latest values that were pushed, in the order in which
/// they came, and never more than its capacity or, where that is zero, one.
pub proof fn history_keeps_the_latest(values: Seq<u64>, capacity: nat)
    ensures
        pushed_all(values, capacity) == values.skip(
            if values.len() > kept_values(capacity) {
                values.len() - kept_values(capacity)
            } else {
                0
            },
        ),
        pushed_all(values, capacity).len() <= kept_values(capacity),
    decreases values.len(),
{
    if values.len() > 0 {
        let before = values.drop_last();
        history_keeps_the_latest(before, capacity);
        let k = if values.len() > kept_values(capacity) {
            values.len() - kept_values(capacity)
        } else {
            0
        };
        assert(pushed_all(values, capacity) =~= values.skip(k));
    } else {
        assert(values.skip(0) =~= Seq::empty());
    }
}

} // verus!
