//! A producer/consumer swap buffer: the receiver appends to the active side,
//! the processor swaps sides and takes everything that was gathered.

use vstd::prelude::*;
use std::collections::VecDeque;

verus! {

/// `s` with `x` appended, then its oldest item dropped if it grew past `cap`.
pub open spec fn bounded_push<T>(s: Seq<T>, x: T, cap: usize) -> Seq<T> {
    if s.len() + 1 > cap {
        s.push(x).drop_first()
    } else {
        s.push(x)
    }
}

/// Appends `x` to `q`, dropping the oldest item if `q` then holds more than
/// `cap` items.
pub fn push_bounded<T>(q: &mut VecDeque<T>, x: T, cap: usize)
    ensures
        final(q)@ == bounded_push(old(q)@, x, cap),
{
    q.push_back(x);
    if q.len() > cap {
        q.pop_front();
    }
}

/// Two sides, one of which takes writes while the other waits empty.
pub struct DoubleBuffer<T> {
    front_buffer: VecDeque<T>,
    back_buffer: VecDeque<T>,
    current_front: bool,
    max_buffer_size: usize,
}

impl<T> DoubleBuffer<T> {
    /// The side that takes writes.
    pub closed spec fn active(&self) -> Seq<T> {
        if self.current_front {
            self.front_buffer@
        } else {
            self.back_buffer@
        }
    }

    /// The side that waits.
    closed spec fn inactive(&self) -> Seq<T> {
        if self.current_front {
            self.back_buffer@
        } else {
            self.front_buffer@
        }
    }

    /// Whether the front side is the one that takes writes.
    pub closed spec fn front_active(&self) -> bool {
        self.current_front
    }

    /// How many items the active side keeps.
    pub closed spec fn capacity(&self) -> usize {
        self.max_buffer_size
    }

    /// The waiting side is empty and the active side within capacity.
    pub closed spec fn wf(&self) -> bool {
        &&& self.inactive().len() == 0
        &&& self.active().len() <= self.max_buffer_size
    }

    /// An empty buffer whose active side keeps at most `max_size` items.
    pub fn new(max_size: usize) -> (r: Self)
        ensures
            r.wf(),
            r.active() == Seq::<T>::empty(),
            r.capacity() == max_size,
            r.front_active(),
    {
        DoubleBuffer {
            front_buffer: VecDeque::new(),
            back_buffer: VecDeque::new(),
            current_front: true,
            max_buffer_size: max_size,
        }
    }

    /// Appends an item to the active side, dropping that side's oldest item
    /// if it then holds more than the capacity.
    pub fn add_sweep(&mut self, sweep: T)
        requires
            old(self).wf(),
        ensures
            final(self).wf(),
            final(self).active() == bounded_push(old(self).active(), sweep, old(self).capacity()),
            final(self).capacity() == old(self).capacity(),
            final(self).front_active() == old(self).front_active(),
    {
        if self.current_front {
            push_bounded(&mut self.front_buffer, sweep, self.max_buffer_size);
        } else {
            push_bounded(&mut self.back_buffer, sweep, self.max_buffer_size);
        }
    }

    /// Makes the other side active and hands over everything the previously
    /// active side held, leaving it empty.
    pub fn swap_buffers(&mut self) -> (r: VecDeque<T>)
        requires
            old(self).wf(),
        ensures
            final(self).wf(),
            r@ == old(self).active(),
            final(self).active() == Seq::<T>::empty(),
            final(self).capacity() == old(self).capacity(),
            final(self).front_active() == !old(self).front_active(),
    {
        self.current_front = !self.current_front;
        let mut taken: VecDeque<T> = VecDeque::new();
        if self.current_front {
            std::mem::swap(&mut taken, &mut self.back_buffer);
        } else {
            std::mem::swap(&mut taken, &mut self.front_buffer);
        }
        taken
    }

    /// How many items the active side holds.
    pub fn front_buffer_size(&self) -> (r: usize)
        requires
            self.wf(),
        ensures
            r == self.active().len(),
    {
        if self.current_front {
            self.front_buffer.len()
        } else {
            self.back_buffer.len()
        }
    }
}

} // verus!
