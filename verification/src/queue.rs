//! A bounded queue between a sensor's producer and its consumer.
//!
//! The queue is a plain value. Whoever shares one between threads holds it in a
//! lock, waits while `push_must_wait` or `pop_must_wait` says so, and wakes
//! the other side after a push, a pop or a close.
use std::collections::VecDeque;
use vstd::prelude::*;

verus! {

/// What happens to a push that finds the queue full.
#[derive(Clone, Copy, Debug)]
pub enum QueuePolicy {
    /// The producer waits for room.
    Backpressure,
    /// The oldest item makes room.
    DropOldest,
}

#[derive(Debug)]
pub enum PushResult<T> {
    /// The item is in the queue, `depth` items deep now; `dropped` made room.
    Accepted { depth: usize, dropped: Option<T> },
    /// The queue takes no more items.
    Closed,
}

/// What a queue is, apart from how it is stored: the oldest item comes first.
#[verifier::ext_equal]
pub struct QueueState<T> {
    pub capacity: nat,
    pub policy: QueuePolicy,
    pub items: Seq<T>,
    pub closed: bool,
}

impl<T> QueueState<T> {
    /// There is room for at least one item, and never are there more than fit.
    pub open spec fn valid(self) -> bool {
        0 < self.capacity && self.items.len() <= self.capacity
    }

    pub open spec fn full(self) -> bool {
        self.items.len() == self.capacity
    }

    pub open spec fn push_waits(self) -> bool {
        self.policy is Backpressure && self.full() && !self.closed
    }

    pub open spec fn pop_waits(self) -> bool {
        self.items.len() == 0 && !self.closed
    }

    /// The item that a push would drop.
    pub open spec fn makes_room(self) -> Option<T> {
        if !self.closed && self.full() {
            Some(self.items[0])
        } else {
            None
        }
    }

    pub open spec fn after_push(self, item: T) -> QueueState<T> {
        if self.closed {
            self
        } else if self.full() {
            QueueState { items: self.items.drop_first().push(item), ..self }
        } else {
            QueueState { items: self.items.push(item), ..self }
        }
    }

    /// The item that a pop takes.
    pub open spec fn head(self) -> Option<T> {
        if self.items.len() == 0 {
            None
        } else {
            Some(self.items[0])
        }
    }

    pub open spec fn after_pop(self) -> QueueState<T> {
        if self.items.len() == 0 {
            self
        } else {
            QueueState { items: self.items.drop_first(), ..self }
        }
    }

    pub open spec fn after_close(self) -> QueueState<T> {
        QueueState { closed: true, ..self }
    }
}

pub struct BoundedQueue<T> {
    capacity: usize,
    policy: QueuePolicy,
    items: VecDeque<T>,
    closed: bool,
}

impl<T> View for BoundedQueue<T> {
    type V = QueueState<T>;

    closed spec fn view(&self) -> QueueState<T> {
        QueueState {
            capacity: self.capacity as nat,
            policy: self.policy,
            items: self.items@,
            closed: self.closed,
        }
    }
}

impl<T> BoundedQueue<T> {
    pub fn new(capacity: usize, policy: QueuePolicy) -> (queue: Self)
        requires
            capacity > 0,
        ensures
            queue@ == (QueueState {
                capacity: capacity as nat,
                policy,
                items: Seq::<T>::empty(),
                closed: false,
            }),
            queue@.valid(),
    {
        BoundedQueue { capacity, policy, items: VecDeque::with_capacity(capacity), closed: false }
    }

    /// A push has to wait for a pop or a close first.
    pub fn push_must_wait(&self) -> (waits: bool)
        ensures
            waits == self@.push_waits(),
    {
        match self.policy {
            QueuePolicy::Backpressure => self.items.len() == self.capacity && !self.closed,
            QueuePolicy::DropOldest => false,
        }
    }

    /// A pop has to wait for a push or a close first.
    pub fn pop_must_wait(&self) -> (waits: bool)
        ensures
            waits == self@.pop_waits(),
    {
        self.items.len() == 0 && !self.closed
    }

    pub fn push(&mut self, item: T) -> (result: PushResult<T>)
        requires
            old(self)@.valid(),
            !old(self)@.push_waits(),
        ensures
            final(self)@ == old(self)@.after_push(item),
            final(self)@.valid(),
            result == if old(self)@.closed {
                PushResult::Closed
            } else {
                PushResult::Accepted {
                    depth: final(self)@.items.len() as usize,
                    dropped: old(self)@.makes_room(),
                }
            },
            result matches PushResult::Accepted { depth, .. } ==> depth == final(self)@.items.len(),
    {
        if self.closed {
            return PushResult::Closed;
        }
        let dropped: Option<T> = if self.items.len() == self.capacity {
            self.items.pop_front()
        } else {
            None
        };
        self.items.push_back(item);
        let depth: usize = self.items.len();
        PushResult::Accepted { depth, dropped }
    }

    /// Takes the oldest item. Nothing is left once a closed queue gives `None`.
    pub fn pop(&mut self) -> (item: Option<T>)
        requires
            old(self)@.valid(),
            !old(self)@.pop_waits(),
        ensures
            item == old(self)@.head(),
            final(self)@ == old(self)@.after_pop(),
            final(self)@.valid(),
    {
        self.items.pop_front()
    }

    pub fn close(&mut self)
        requires
            old(self)@.valid(),
        ensures
            final(self)@ == old(self)@.after_close(),
            final(self)@.valid(),
    {
        self.closed = true;
    }
}

/// One call on a queue.
pub enum QueueStep<T> {
    Push(T),
    Pop,
    Close,
}

/// What a run of calls on a queue came to.
#[verifier::ext_equal]
pub struct QueueRun<T> {
    pub state: QueueState<T>,
    /// Items whose push was accepted, in order.
    pub accepted: Seq<T>,
    /// Items that left, popped or dropped, in order.
    pub departed: Seq<T>,
    /// Those of them that were dropped.
    pub dropped: Seq<T>,
}

/// One call after a run. A call that has to wait has not happened yet.
pub open spec fn step_run<T>(run: QueueRun<T>, step: QueueStep<T>) -> QueueRun<T> {
    match step {
        QueueStep::Push(item) => if run.state.push_waits() || run.state.closed {
            run
        } else {
            let state = run.state.after_push(item);
            match run.state.makes_room() {
                Some(oldest) => QueueRun {
                    state,
                    accepted: run.accepted.push(item),
                    departed: run.departed.push(oldest),
                    dropped: run.dropped.push(oldest),
                },
                None => QueueRun { state, accepted: run.accepted.push(item), ..run },
            }
        },
        QueueStep::Pop => match run.state.head() {
            Some(oldest) => QueueRun {
                state: run.state.after_pop(),
                departed: run.departed.push(oldest),
                ..run
            },
            None => run,
        },
        QueueStep::Close => QueueRun { state: run.state.after_close(), ..run },
    }
}

/// A run of calls, first call first.
pub open spec fn queue_run<T>(start: QueueState<T>, steps: Seq<QueueStep<T>>) -> QueueRun<T>
    decreases steps.len(),
{
    if steps.len() == 0 {
        QueueRun {
            state: start,
            accepted: Seq::empty(),
            departed: Seq::empty(),
            dropped: Seq::empty(),
        }
    } else {
        step_run(queue_run(start, steps.drop_last()), steps.last())
    }
}

/// First in, first out, nothing lost and nothing made up: whatever the calls,
/// what has left, followed by what is in the queue, is what was there at the
/// start followed by what was accepted. And the queue never holds more than
/// its capacity.
pub proof fn law_fifo<T>(start: QueueState<T>, steps: Seq<QueueStep<T>>)
    requires
        start.valid(),
    ensures
        queue_run(start, steps).departed + queue_run(start, steps).state.items == start.items
            + queue_run(start, steps).accepted,
        queue_run(start, steps).state.valid(),
        queue_run(start, steps).state.capacity == start.capacity,
        queue_run(start, steps).state.policy == start.policy,
    decreases steps.len(),
{
    if steps.len() > 0 {
        let before = queue_run(start, steps.drop_last());
        law_fifo(start, steps.drop_last());
        let after = step_run(before, steps.last());
        assert(after.departed + after.state.items =~= start.items + after.accepted) by {
            match steps.last() {
                QueueStep::Push(item) => {
                    if before.state.push_waits() || before.state.closed {
                    } else if before.state.full() {
                        assert(after.departed + after.state.items =~= (before.departed
                            + before.state.items).push(item));
                    } else {
                        assert(after.departed + after.state.items =~= (before.departed
                            + before.state.items).push(item));
                    }
                    assert((start.items + before.accepted).push(item) =~= start.items
                        + before.accepted.push(item));
                },
                QueueStep::Pop => {
                    if before.state.items.len() > 0 {
                        assert(after.departed + after.state.items =~= before.departed
                            + before.state.items);
                    }
                },
                QueueStep::Close => {},
            }
        }
    }
}

/// Under backpressure nothing is ever dropped.
pub proof fn law_backpressure_never_drops<T>(start: QueueState<T>, steps: Seq<QueueStep<T>>)
    requires
        start.valid(),
        start.policy is Backpressure,
    ensures
        queue_run(start, steps).dropped.len() == 0,
    decreases steps.len(),
{
    if steps.len() > 0 {
        law_backpressure_never_drops(start, steps.drop_last());
        law_fifo(start, steps.drop_last());
    }
}

/// Items pushed one after the other.
pub open spec fn pushes<T>(items: Seq<T>) -> Seq<QueueStep<T>> {
    items.map_values(|item: T| QueueStep::Push(item))
}

/// A drop-oldest queue that nobody reads holds the latest items, as many as fit.
pub proof fn law_drop_oldest_keeps_latest<T>(start: QueueState<T>, items: Seq<T>)
    requires
        start.valid(),
        start.policy is DropOldest,
        start.items.len() == 0,
        !start.closed,
    ensures
        queue_run(start, pushes(items)).accepted == items,
        queue_run(start, pushes(items)).state.items == items.skip(
            if items.len() <= start.capacity {
                0
            } else {
                items.len() - start.capacity
            },
        ),
        !queue_run(start, pushes(items)).state.closed,
    decreases items.len(),
{
    let steps = pushes(items);
    if items.len() > 0 {
        let front = items.drop_last();
        law_drop_oldest_keeps_latest(start, front);
        law_fifo(start, pushes(front));
        assert(pushes(front) =~= steps.drop_last());
        assert(front.push(items.last()) =~= items);
        let run = queue_run(start, pushes(front));
        let after = step_run(run, QueueStep::Push(items.last()));
        assert(after == queue_run(start, steps));
        if front.len() < start.capacity {
            assert(after.state.items =~= items.skip(0));
        } else {
            assert(after.state.items =~= items.skip(items.len() - start.capacity));
        }
    }
}

/// Once closed, a queue stays closed, takes nothing more, and gives out what it
/// held, oldest first, until it is empty.
pub proof fn law_closed_queue_drains<T>(start: QueueState<T>, steps: Seq<QueueStep<T>>)
    requires
        start.valid(),
        start.closed,
    ensures
        queue_run(start, steps).state.closed,
        queue_run(start, steps).accepted.len() == 0,
        queue_run(start, steps).dropped.len() == 0,
        queue_run(start, steps).departed + queue_run(start, steps).state.items == start.items,
        !queue_run(start, steps).state.pop_waits(),
        !queue_run(start, steps).state.push_waits(),
    decreases steps.len(),
{
    if steps.len() > 0 {
        law_closed_queue_drains(start, steps.drop_last());
    }
    law_fifo(start, steps);
    assert(start.items + queue_run(start, steps).accepted =~= start.items);
}

/// Who has to wait: a push only for room, in a queue that is open and keeps all it
/// takes; a pop only for an item, in a queue that is open.
pub proof fn law_only_open_queues_make_wait<T>(queue: QueueState<T>)
    requires
        queue.valid(),
    ensures
        queue.push_waits() <==> queue.policy is Backpressure && queue.items.len()
            == queue.capacity && !queue.closed,
        queue.pop_waits() <==> queue.items.len() == 0 && !queue.closed,
{
}

/// A push puts its item behind all others and a pop takes the item before all
/// others; a full queue gives up the oldest item, and no other.
pub proof fn law_items_come_in_behind_and_leave_in_front<T>(queue: QueueState<T>, item: T)
    requires
        queue.valid(),
        !queue.closed,
    ensures
        queue.after_push(item).items.last() == item,
        queue.items.len() < queue.capacity ==> queue.makes_room() is None && queue.after_push(
            item,
        ).items.drop_last() == queue.items,
        queue.items.len() == queue.capacity ==> queue.makes_room() == Some(queue.items[0])
            && seq![queue.items[0]] + queue.after_push(item).items == queue.items.push(item),
        queue.items.len() > 0 ==> queue.head() is Some && seq![queue.head()->0]
            + queue.after_pop().items == queue.items,
        queue.items.len() == 0 ==> queue.head() is None && queue.after_pop() == queue,
        queue.after_close().closed && queue.after_close().items == queue.items,
        queue.after_push(item).capacity == queue.capacity,
        queue.after_push(item).policy == queue.policy,
        !queue.after_push(item).closed,
        !queue.after_pop().closed,
{
    assert(queue.items.push(item).drop_last() =~= queue.items);
    if queue.items.len() > 0 {
        assert(seq![queue.items[0]] + queue.items.drop_first() =~= queue.items);
        assert(seq![queue.items[0]] + queue.items.drop_first().push(item) =~= queue.items.push(
            item,
        ));
    }
}

} // verus!
