//! Bounded tracking of asynchronous work that is still outstanding.
//!
//! A sink hands every unit of work to a worker and keeps the receiving end of
//! the channel on which the worker will report. [`AsyncSink`] holds those
//! handles in the order of submission, never more than its limit, and gives
//! the results back in that same order without ever blocking.

use crate::channel::try_receive;
use crate::errors::ErrorKind;
use std::collections::VecDeque;
use std::sync::mpsc::Receiver;
use vstd::prelude::*;

verus! {

/// Handle on one unit of outstanding work: its result arrives here.
pub type WorkHandle<T> = Receiver<Result<T, ErrorKind>>;

/// Why a unit of work was not admitted.
#[derive(Debug, Clone, Copy, PartialEq, Eq, Structural)]
pub enum SinkEnqueueError {
    /// As many units are outstanding as the limit allows.
    AtCapacity,
}

/// Why no result was handed out.
#[derive(Debug, Clone, Copy, PartialEq, Eq, Structural)]
pub enum SinkDequeueError {
    /// Nothing is outstanding.
    Empty,
    /// The unit that is next in line has not finished.
    NotReady,
}

/// Mathematical value of an [`AsyncSink`]: the outstanding handles, oldest
/// first, and the limit on their number.
pub ghost struct SinkModel<H> {
    pub pending: Seq<H>,
    pub limit: nat,
}

impl<H> SinkModel<H> {
    /// No more units are outstanding than the limit allows.
    pub open spec fn bounded(self) -> bool {
        self.pending.len() <= self.limit
    }

    pub open spec fn has_capacity(self) -> bool {
        self.pending.len() < self.limit
    }

    /// State after an attempt to admit `handle`; unchanged when at capacity.
    pub open spec fn enqueue(self, handle: H) -> SinkModel<H> {
        if self.has_capacity() {
            SinkModel { pending: self.pending.push(handle), limit: self.limit }
        } else {
            self
        }
    }

    /// State after the oldest unit was polled: it leaves when it had finished.
    pub open spec fn settle(self, finished: bool) -> SinkModel<H> {
        if finished && self.pending.len() > 0 {
            SinkModel { pending: self.pending.drop_first(), limit: self.limit }
        } else {
            self
        }
    }
}

/// Tracks the handles of outstanding asynchronous work up to a fixed limit.
#[verifier::reject_recursive_types(T)]
pub struct AsyncSink<T> {
    queue: VecDeque<WorkHandle<T>>,
    capacity: usize,
}

impl<T> View for AsyncSink<T> {
    type V = SinkModel<WorkHandle<T>>;

    closed spec fn view(&self) -> SinkModel<WorkHandle<T>> {
        SinkModel { pending: self.queue@, limit: self.capacity as nat }
    }
}

impl<T> AsyncSink<T> {
    /// An empty sink that admits up to `capacity` units at a time.
    pub fn new(capacity: usize) -> (sink: Self)
        ensures
            sink@.pending.len() == 0,
            sink@.limit == capacity,
            sink@.bounded(),
    {
        AsyncSink { queue: VecDeque::new(), capacity }
    }

    /// Number of units that are outstanding.
    pub fn len(&self) -> (n: usize)
        ensures
            n == self@.pending.len(),
    {
        self.queue.len()
    }

    /// The limit on the number of outstanding units.
    pub fn capacity(&self) -> (n: usize)
        ensures
            n == self@.limit,
    {
        self.capacity
    }

    /// Whether one more unit would be admitted.
    pub fn has_capacity(&self) -> (free: bool)
        ensures
            free == self@.has_capacity(),
    {
        self.queue.len() < self.capacity
    }

    /// Admits one unit of work, unless the limit is reached: then nothing
    /// changes and the handle is dropped.
    pub fn enqueue(&mut self, value: WorkHandle<T>) -> (r: Result<(), SinkEnqueueError>)
        ensures
            final(self)@ == old(self)@.enqueue(value),
            r == if old(self)@.has_capacity() {
                Ok::<(), SinkEnqueueError>(())
            } else {
                Err::<(), SinkEnqueueError>(SinkEnqueueError::AtCapacity)
            },
    {
        if self.queue.len() >= self.capacity {
            Err(SinkEnqueueError::AtCapacity)
        } else {
            self.queue.push_back(value);
            Ok(())
        }
    }

    /// Takes the decision of [`AsyncSink::dequeue`] once the oldest unit was
    /// polled: `polled` is its result if it had finished.
    pub fn settle(&mut self, polled: Option<Result<T, ErrorKind>>) -> (r: Result<
        Result<T, ErrorKind>,
        SinkDequeueError,
    >)
        ensures
            final(self)@ == old(self)@.settle(polled is Some),
            r == if old(self)@.pending.len() == 0 {
                Err::<Result<T, ErrorKind>, SinkDequeueError>(SinkDequeueError::Empty)
            } else {
                match polled {
                    Some(result) => Ok::<Result<T, ErrorKind>, SinkDequeueError>(result),
                    None => Err::<Result<T, ErrorKind>, SinkDequeueError>(
                        SinkDequeueError::NotReady,
                    ),
                }
            },
    {
        if self.queue.len() == 0 {
            Err(SinkDequeueError::Empty)
        } else {
            match polled {
                Some(result) => {
                    let _ = self.queue.pop_front();
                    Ok(result)
                },
                None => Err(SinkDequeueError::NotReady),
            }
        }
    }

    /// Polls the oldest outstanding unit without blocking and without taking
    /// it off the queue. The result, if there is one, has left the channel:
    /// hand it to [`AsyncSink::settle`].
    pub fn poll(&self) -> (polled: Option<Result<T, ErrorKind>>)
        ensures
            self@.pending.len() == 0 ==> polled is None,
    {
        if self.queue.len() == 0 {
            None
        } else {
            try_receive(&self.queue[0])
        }
    }

    /// Polls the oldest outstanding unit without blocking. A finished unit
    /// leaves the sink and its result is returned; one that is still running
    /// stays where it is, ahead of all later ones.
    pub fn dequeue(&mut self) -> (r: Result<Result<T, ErrorKind>, SinkDequeueError>)
        ensures
            final(self)@ == old(self)@.settle(r is Ok),
            old(self)@.pending.len() == 0 <==> r == Err::<Result<T, ErrorKind>, SinkDequeueError>(
                SinkDequeueError::Empty,
            ),
    {
        let polled = self.poll();
        self.settle(polled)
    }
}

/// No step takes a sink over its limit.
pub proof fn lemma_bound_is_kept<H>(sink: SinkModel<H>, handle: H, finished: bool)
    requires
        sink.bounded(),
    ensures
        sink.enqueue(handle).bounded(),
        sink.settle(finished).bounded(),
{
}

/// A sink that is full refuses every unit until a finished one is drained;
/// the drain makes room for exactly one.
pub proof fn lemma_capacity_is_enforced<H>(full: SinkModel<H>, first: H, second: H)
    requires
        full.pending.len() == full.limit,
        full.limit > 0,
    ensures
        full.enqueue(first) == full,
        full.settle(false).enqueue(first) == full,
        full.settle(true).has_capacity(),
        full.settle(true).enqueue(first).pending == full.pending.drop_first().push(first),
        !full.settle(true).enqueue(first).has_capacity(),
        full.settle(true).enqueue(first).enqueue(second) == full.settle(true).enqueue(first),
{
}

/// Results leave in the order in which the work was admitted: of two units
/// admitted one after the other, the first is the first to be drained, and
/// the second stays behind it until then.
pub proof fn lemma_first_in_first_out<H>(sink: SinkModel<H>, first: H, second: H)
    requires
        sink.pending.len() + 2 <= sink.limit,
    ensures
        sink.enqueue(first).enqueue(second).pending == sink.pending.push(first).push(second),
        sink.pending.len() == 0 ==> sink.enqueue(first).enqueue(second).settle(true).pending
            == seq![second],
        sink.enqueue(first).enqueue(second).settle(false) == sink.enqueue(first).enqueue(second),
{
    if sink.pending.len() == 0 {
        assert(sink.enqueue(first).enqueue(second).settle(true).pending =~= seq![second]);
    }
}

/// Starting from an empty sink, the units admitted by any run of enqueues
/// with no drain in between are the first `limit` of them.
pub proof fn lemma_admits_up_to_limit<H>(limit: nat, handles: Seq<H>)
    ensures
        enqueue_all(SinkModel { pending: Seq::empty(), limit }, handles).limit == limit,
        enqueue_all(SinkModel { pending: Seq::empty(), limit }, handles).pending == if handles.len()
            <= limit {
            handles
        } else {
            handles.take(limit as int)
        },
    decreases handles.len(),
{
    let start = SinkModel { pending: Seq::<H>::empty(), limit };
    if handles.len() > 0 {
        let before = handles.drop_last();
        lemma_admits_up_to_limit(limit, before);
        let mid = enqueue_all(start, before);
        assert(mid.limit == limit);
        assert(enqueue_all(start, handles) == mid.enqueue(handles.last()));
        if handles.len() <= limit {
            assert(mid.pending == before);
            assert(before.push(handles.last()) =~= handles);
        } else if before.len() <= limit {
            assert(mid.pending == before);
            assert(before =~= handles.take(limit as int));
        } else {
            assert(mid.pending == before.take(limit as int));
            assert(before.take(limit as int) =~= handles.take(limit as int));
        }
    }
}

/// State after offering `handles` one after the other.
pub open spec fn enqueue_all<H>(start: SinkModel<H>, handles: Seq<H>) -> SinkModel<H>
    decreases handles.len(),
{
    if handles.len() == 0 {
        start
    } else {
        enqueue_all(start, handles.drop_last()).enqueue(handles.last())
    }
}

} // verus!
