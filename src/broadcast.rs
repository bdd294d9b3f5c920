//! The bounded, lossy notification queue: when it is full, a new event
//! pushes out the oldest undelivered one.
use vstd::prelude::*;

verus! {

pub struct LossyQueue<T> {
    capacity: usize,
    items: Vec<T>,
}

/// The queue's contents after `x` is offered to a queue holding `s` with room
/// for `capacity` events.
pub open spec fn offered<T>(s: Seq<T>, x: T, capacity: nat) -> Seq<T> {
    if s.len() < capacity {
        s.push(x)
    } else {
        s.drop_first().push(x)
    }
}

impl<T> View for LossyQueue<T> {
    type V = Seq<T>;

    closed spec fn view(&self) -> Seq<T> {
        self.items@
    }
}

impl<T> LossyQueue<T> {
    pub closed spec fn capacity_spec(&self) -> nat {
        self.capacity as nat
    }

    pub open spec fn wf(&self) -> bool {
        0 < self.capacity_spec() && self@.len() <= self.capacity_spec()
    }

    pub fn new(capacity: usize) -> (r: Self)
        requires
            capacity > 0,
        ensures
            r.wf(),
            r.capacity_spec() == capacity,
            r@ == Seq::<T>::empty(),
    {
        LossyQueue { capacity, items: Vec::new() }
    }

    pub fn capacity(&self) -> (r: usize)
        ensures
            r == self.capacity_spec(),
    {
        self.capacity
    }

    pub fn len(&self) -> (r: usize)
        ensures
            r == self@.len(),
    {
        self.items.len()
    }

    /// Adds an event; when the queue is full, the oldest one is dropped.
    pub fn push(&mut self, x: T)
        requires
            old(self).wf(),
        ensures
            final(self).wf(),
            final(self).capacity_spec() == old(self).capacity_spec(),
            final(self)@ == offered(old(self)@, x, old(self).capacity_spec()),
    {
        if self.items.len() >= self.capacity {
            self.items.remove(0);
        }
        self.items.push(x);
        proof {
            assert(old(self)@.remove(0) == old(self)@.drop_first());
        }
    }

    /// Delivers the oldest undelivered event.
    pub fn pop(&mut self) -> (r: Option<T>)
        requires
            old(self).wf(),
        ensures
            final(self).wf(),
            final(self).capacity_spec() == old(self).capacity_spec(),
            old(self)@.len() == 0 ==> r is None && final(self)@ == old(self)@,
            old(self)@.len() > 0 ==> r == Some(old(self)@[0]) && final(self)@
                == old(self)@.drop_first(),
    {
        if self.items.len() == 0 {
            None
        } else {
            let x = self.items.remove(0);
            proof {
                assert(old(self)@.remove(0) == old(self)@.drop_first());
            }
            Some(x)
        }
    }
}

/// The queue keeps the producer's order: what it holds after an offer is the
/// newest events, oldest first, ending with the one just offered, and never
/// more than its capacity.
pub proof fn lemma_offer_keeps_order<T>(s: Seq<T>, x: T, capacity: nat)
    requires
        0 < capacity,
        s.len() <= capacity,
    ensures
        offered(s, x, capacity).len() <= capacity,
        offered(s, x, capacity).last() == x,
        offered(s, x, capacity).drop_last() == s.subrange(
            s.len() - (offered(s, x, capacity).len() - 1),
            s.len() as int,
        ),
{
    if s.len() < capacity {
        assert(s.push(x).drop_last() == s);
        assert(s.subrange(0, s.len() as int) == s);
    } else {
        assert(s.drop_first().push(x).drop_last() == s.drop_first());
        assert(s.drop_first() == s.subrange(1, s.len() as int));
    }
}

} // verus!
