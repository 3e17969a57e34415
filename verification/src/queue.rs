//! Sequential animation queue: when several reminders fire at once they are
//! displayed one after another instead of overlapping. `max_simultaneous`
//! (default 1) controls concurrency.

use std::collections::VecDeque;

use vstd::prelude::*;

verus! {

/// Most pending shows the queue holds; pushing onto a full queue drops the
/// oldest entry.
pub const QUEUE_BOUND: usize = 32;

/// One walk waiting to be shown.
#[derive(Debug, Clone)]
pub struct PendingShow {
    pub message: String,
    pub character: Option<String>,
    /// Debug label used in logs (reminder title).
    pub label: String,
}

/// The pending shows, oldest first, and how many may run at once.
#[derive(Debug)]
pub struct ShowQueue {
    items: VecDeque<PendingShow>,
    max: usize,
}

/// `n` clamped to `lo..=hi` (`Ord::clamp`).
pub open spec fn clamped(n: int, lo: int, hi: int) -> int {
    if n < lo {
        lo
    } else if n > hi {
        hi
    } else {
        n
    }
}

/// The queue `q` after pushing `x`: the oldest entry leaves first when the
/// queue is full.
pub open spec fn pushed(q: Seq<PendingShow>, x: PendingShow) -> Seq<PendingShow> {
    if q.len() >= QUEUE_BOUND {
        q.drop_first().push(x)
    } else {
        q.push(x)
    }
}

/// How many shows `take(free_slots)` hands out of a queue of `len`.
pub open spec fn taken_count(free_slots: int, len: int) -> int {
    if free_slots < len {
        free_slots
    } else {
        len
    }
}

impl View for ShowQueue {
    type V = Seq<PendingShow>;

    closed spec fn view(&self) -> Seq<PendingShow> {
        self.items@
    }
}

impl ShowQueue {
    #[verifier::type_invariant]
    closed spec fn wf(self) -> bool {
        &&& 1 <= self.max <= 4
        &&& self.items@.len() <= QUEUE_BOUND
    }

    /// How many shows may run at once.
    pub closed spec fn slots(self) -> int {
        self.max as int
    }

    /// An empty queue running `max_simultaneous` shows at once, clamped to
    /// 1..=4.
    pub fn new(max_simultaneous: usize) -> (r: ShowQueue)
        ensures
            r@ == Seq::<PendingShow>::empty(),
            r.slots() == clamped(max_simultaneous as int, 1, 4),
    {
        let max = if max_simultaneous < 1 {
            1
        } else if max_simultaneous > 4 {
            4
        } else {
            max_simultaneous
        };
        ShowQueue { items: VecDeque::new(), max }
    }

    pub fn len(&self) -> (r: usize)
        ensures
            r == self@.len(),
            r <= QUEUE_BOUND,
    {
        proof {
            use_type_invariant(self);
        }
        self.items.len()
    }

    pub fn is_empty(&self) -> (r: bool)
        ensures
            r == (self@.len() == 0),
    {
        self.items.len() == 0
    }

    /// Bound the queue so a runaway schedule can't pile up forever; the
    /// oldest non-displayed entry is dropped when the queue is full.
    pub fn push(&mut self, item: PendingShow)
        ensures
            final(self)@ == pushed(old(self)@, item),
            final(self)@.len() <= QUEUE_BOUND,
            final(self).slots() == old(self).slots(),
    {
        proof {
            use_type_invariant(&*self);
        }
        let mut items: VecDeque<PendingShow> = VecDeque::new();
        std::mem::swap(&mut items, &mut self.items);
        if items.len() >= QUEUE_BOUND {
            let _ = items.pop_front();
        }
        items.push_back(item);
        self.items = items;
    }

    /// Take up to `free_slots` items for immediate display, oldest first.
    pub fn take(&mut self, free_slots: usize) -> (r: Vec<PendingShow>)
        ensures
            r@ == old(self)@.take(taken_count(free_slots as int, old(self)@.len() as int)),
            final(self)@ == old(self)@.skip(taken_count(free_slots as int, old(self)@.len() as int)),
            final(self).slots() == old(self).slots(),
    {
        proof {
            use_type_invariant(&*self);
        }
        let n = if free_slots < self.items.len() {
            free_slots
        } else {
            self.items.len()
        };
        let ghost start = self.items@;
        let mut items: VecDeque<PendingShow> = VecDeque::new();
        std::mem::swap(&mut items, &mut self.items);
        let mut out: Vec<PendingShow> = Vec::new();
        let mut i: usize = 0;
        while i < n
            invariant
                0 <= i <= n <= start.len(),
                n == taken_count(free_slots as int, start.len() as int),
                out@ == start.take(i as int),
                items@ == start.skip(i as int),
            decreases n - i,
        {
            match items.pop_front() {
                Some(x) => {
                    out.push(x);
                },
                None => {},
            }
            proof {
                assert(start.take(i + 1) =~= start.take(i as int).push(start[i as int]));
                assert(start.skip(i + 1) =~= start.skip(i as int).subrange(1, start.skip(i as int).len() as int));
            }
            i = i + 1;
        }
        self.items = items;
        out
    }

    /// How many shows may run at once.
    pub fn capacity(&self) -> (r: usize)
        ensures
            r == self.slots(),
            1 <= r <= 4,
    {
        proof {
            use_type_invariant(self);
        }
        self.max
    }
}

/// Pushing keeps the queue bounded and in order: the new item comes last,
/// and at most the oldest entry leaves, only when the queue was full.
pub proof fn law_push_keeps_order(q: Seq<PendingShow>, x: PendingShow)
    requires
        q.len() <= QUEUE_BOUND,
    ensures
        pushed(q, x).len() <= QUEUE_BOUND,
        pushed(q, x).last() == x,
        q.len() < QUEUE_BOUND ==> pushed(q, x).drop_last() == q,
        q.len() == QUEUE_BOUND ==> pushed(q, x).drop_last() == q.skip(1),
{
    assert(pushed(q, x).drop_last() =~= if q.len() >= QUEUE_BOUND { q.drop_first() } else { q });
}

/// Taking hands shows out first in, first out: what one `take` returns,
/// followed by what stays, is the queue as it was.
pub proof fn law_take_fifo(q: Seq<PendingShow>, free_slots: int)
    requires
        free_slots >= 0,
    ensures
        q.take(taken_count(free_slots, q.len() as int)) + q.skip(taken_count(free_slots, q.len() as int)) == q,
        q.take(taken_count(free_slots, q.len() as int)).len() == taken_count(free_slots, q.len() as int),
        taken_count(free_slots, q.len() as int) <= free_slots,
{
    assert(q.take(taken_count(free_slots, q.len() as int)) + q.skip(taken_count(free_slots, q.len() as int)) =~= q);
}

} // verus!
