//! The divergence buffer: a first-in first-out queue of short-circuiting values, and the
//! two steps that move values between a stream and the queue.
use crate::try_polyfill::{is_normal, output_of, Try};
use core::ops::ControlFlow;
use std::collections::VecDeque;
use vstd::prelude::*;
use vstd::std_specs::iter::IteratorSpec;

verus! {

/// The head of `pending`, if there is one: what `pop` hands out.
pub open spec fn popped<T>(pending: Seq<T>) -> Option<T> {
    if pending.len() > 0 {
        Some(pending[0])
    } else {
        None
    }
}

/// What `pop` leaves of `pending`: all but the head.
pub open spec fn after_pop<T>(pending: Seq<T>) -> Seq<T> {
    if pending.len() > 0 {
        pending.drop_first()
    } else {
        pending
    }
}

/// What `push_and_pop` hands out: the head of `pending`, or `input` itself when nothing
/// is pending.
pub open spec fn released<T>(pending: Seq<T>, input: T) -> T {
    if pending.len() > 0 {
        pending[0]
    } else {
        input
    }
}

/// What `push_and_pop` leaves of `pending`: `input` joins at the tail and the head goes,
/// or nothing is touched when nothing is pending.
pub open spec fn requeued<T>(pending: Seq<T>, input: T) -> Seq<T> {
    if pending.len() > 0 {
        pending.drop_first().push(input)
    } else {
        pending
    }
}

/// How many divergent values stand at the front of `source`, before its first normal one.
pub open spec fn leading_divergent<T: Try>(source: Seq<T>) -> int
    decreases source.len(),
{
    if source.len() == 0 || is_normal(source[0]) {
        0
    } else {
        1 + leading_divergent(source.drop_first())
    }
}

/// The divergent values at the front of `source`: what `next_unwrapped` moves to the
/// queue.
pub open spec fn shunted<T: Try>(source: Seq<T>) -> Seq<T> {
    source.take(leading_divergent(source))
}

/// The output of the first normal value of `source`, if it has one: what `next_unwrapped`
/// hands out.
pub open spec fn unwrapped<T: Try>(source: Seq<T>) -> Option<T::Output> {
    if leading_divergent(source) < source.len() {
        Some(output_of(source[leading_divergent(source)]))
    } else {
        None
    }
}

/// What `next_unwrapped` leaves of `source`: all that follows its first normal value.
pub open spec fn after_unwrapped<T: Try>(source: Seq<T>) -> Seq<T> {
    if leading_divergent(source) < source.len() {
        source.skip(leading_divergent(source) + 1)
    } else {
        Seq::empty()
    }
}

/// What `rewrap` hands out when the pull on a stream gave `pulled` and `pending` waits in
/// the queue: nothing if the stream is exhausted, else the head of the queue or, with
/// nothing pending, the pulled output wrapped again.
pub open spec fn rewrapped<T: Try>(pending: Seq<T>, pulled: Option<T::Output>) -> Option<T> {
    match pulled {
        Some(output) => Some(released(pending, T::from_output_spec(output))),
        None => None,
    }
}

/// What `rewrap` leaves in the queue when the pull on a stream gave `pulled` and
/// `pending` waits there.
pub open spec fn after_rewrapped<T: Try>(pending: Seq<T>, pulled: Option<T::Output>) -> Seq<T> {
    match pulled {
        Some(output) => requeued(pending, T::from_output_spec(output)),
        None => pending,
    }
}

/// `leading_divergent` lies within `source`; all before it is divergent, and what stands
/// at it, if anything, is normal.
pub proof fn lemma_leading_divergent_is_first_normal<T: Try>(source: Seq<T>)
    ensures
        0 <= leading_divergent(source) <= source.len(),
        forall|i: int| 0 <= i < leading_divergent(source) ==> !is_normal(#[trigger] source[i]),
        leading_divergent(source) < source.len() ==> is_normal(source[leading_divergent(source)]),
    decreases source.len(),
{
    if source.len() > 0 && !is_normal(source[0]) {
        let rest = source.drop_first();
        lemma_leading_divergent_is_first_normal(rest);
        assert forall|i: int| 0 <= i < leading_divergent(source) implies !is_normal(
            #[trigger] source[i],
        ) by {
            if i > 0 {
                assert(source[i] == rest[i - 1]);
            }
        }
        assert(leading_divergent(rest) < rest.len() ==> source[leading_divergent(source)]
            == rest[leading_divergent(rest)]);
    }
}

/// `leading_divergent` is the one index up to which all is divergent and at which
/// `source` ends or holds a normal value.
pub proof fn lemma_leading_divergent<T: Try>(source: Seq<T>, count: int)
    requires
        0 <= count <= source.len(),
        forall|i: int| 0 <= i < count ==> !is_normal(#[trigger] source[i]),
        count < source.len() ==> is_normal(source[count]),
    ensures
        leading_divergent(source) == count,
    decreases source.len(),
{
    if count > 0 {
        let rest = source.drop_first();
        assert forall|i: int| 0 <= i < count - 1 implies !is_normal(#[trigger] rest[i]) by {
            assert(rest[i] == source[i + 1]);
        }
        lemma_leading_divergent(rest, count - 1);
    }
}

/// A first-in first-out queue of short-circuiting values. A queue has one owner at a
/// time, who hands it to whoever is to push or pop; what is pushed is seen by whoever
/// holds the queue next.
pub trait ControlFlowBuffer: Default {
    /// The values that the queue holds.
    type Item;

    /// The queued values, oldest first.
    spec fn pending(&self) -> Seq<Self::Item>;

    /// Add an item at the tail of the queue.
    fn push(&mut self, input: Self::Item)
        ensures
            final(self).pending() == old(self).pending().push(input),
    ;

    /// Remove the item at the head of the queue, if there is one.
    fn pop(&mut self) -> (next: Option<Self::Item>)
        ensures
            next == popped(old(self).pending()),
            final(self).pending() == after_pop(old(self).pending()),
    ;

    /// Both push and pop, without putting `input` in the queue when it would be popped
    /// right off again.
    fn push_and_pop(&mut self, input: Self::Item) -> (next: Self::Item)
        ensures
            next == released(old(self).pending(), input),
            final(self).pending() == requeued(old(self).pending(), input),
    {
        if let Some(next) = self.pop() {
            self.push(input);
            next
        } else {
            input
        }
    }

    /// Takes in one item of a stream. The output of a normal item is handed out and the
    /// queue stays as it is; a divergent item joins the queue at the tail and nothing is
    /// handed out. This is one turn of `next_unwrapped`, for callers who pull from their
    /// stream themselves.
    fn absorb<O>(&mut self, item: Self::Item) -> (next: Option<O>) where
        Self::Item: Try<Output = O>,

        ensures
            is_normal(item) ==> next == Some(output_of(item)) && final(self).pending() == old(
                self,
            ).pending(),
            !is_normal(item) ==> next is None && final(self).pending() == old(
                self,
            ).pending().push(item),
    {
        match item.branch() {
            ControlFlow::Continue(next) => Some(next),
            ControlFlow::Break(residual) => {
                proof {
                    item.lemma_rebuild();
                }
                self.push(Try::from_residual(residual));
                None
            },
        }
    }

    /// Advances the given iterator until an item that unwraps is found, and returns its
    /// output. The divergent items met on the way join the queue, in their order. Returns
    /// `None` when the iterator ends before a normal item comes.
    ///
    /// The iterator must be one whose `next` is specified and that has a measure of what
    /// is left of it, so that the search ends; the measure has gone down when an output
    /// is handed out. For any other iterator, pull from it and hand each item to `absorb`.
    fn next_unwrapped<O>(&mut self, iter: &mut impl Iterator<Item = Self::Item>) -> (next: Option<
        O,
    >) where Self::Item: Try<Output = O>
        requires
            (*old(iter)).obeys_prophetic_iter_laws(),
            (*old(iter)).decrease() is Some,
        ensures
            next == unwrapped((*old(iter)).remaining()),
            (*final(iter)).remaining() == after_unwrapped((*old(iter)).remaining()),
            final(self).pending() == old(self).pending() + shunted((*old(iter)).remaining()),
            (*final(iter)).obeys_prophetic_iter_laws(),
            (*final(iter)).decrease() is Some,
            next is Some ==> decreases_to!((*old(iter)).decrease()->0 =>
                (*final(iter)).decrease()->0),
    {
        let ghost source = (*iter).remaining();
        let ghost queued = self.pending();
        let ghost mut count: int = 0;
        loop
            invariant
                source == (*old(iter)).remaining(),
                queued == old(self).pending(),
                (*iter).obeys_prophetic_iter_laws(),
                (*iter).decrease() is Some,
                0 <= count <= source.len(),
                (*iter).remaining() == source.skip(count),
                forall|i: int| 0 <= i < count ==> !is_normal(#[trigger] source[i]),
                self.pending() == queued + source.take(count),
                count == 0 ==> (*iter).decrease() == (*old(iter)).decrease(),
                count > 0 ==> decreases_to!((*old(iter)).decrease()->0 => (*iter).decrease()->0),
            decreases (*iter).decrease()->0,
        {
            match iter.next() {
                None => {
                    proof {
                        lemma_leading_divergent(source, count);
                        assert(source.take(count) == source);
                    }
                    return None;
                },
                Some(item) => {
                    assert(item == source[count]);
                    assert(source.skip(count).drop_first() == source.skip(count + 1));
                    match self.absorb(item) {
                        Some(next) => {
                            proof {
                                lemma_leading_divergent(source, count);
                            }
                            return Some(next);
                        },
                        None => {
                            proof {
                                assert(source.take(count).push(item) == source.take(count + 1));
                                count = count + 1;
                            }
                        },
                    }
                },
            }
        }
    }

    /// Takes what a pull on a stream of outputs gave back into the stream of wrapped
    /// values: an output is wrapped and passed through the queue by `push_and_pop`, so
    /// that whatever the pull left waiting goes out before it; `None` stays `None`.
    fn rewrap<O>(&mut self, pulled: Option<O>) -> (next: Option<Self::Item>) where
        Self::Item: Try<Output = O>,

        ensures
            next == rewrapped::<Self::Item>(old(self).pending(), pulled),
            final(self).pending() == after_rewrapped::<Self::Item>(old(self).pending(), pulled),
    {
        match pulled {
            Some(output) => Some(self.push_and_pop(Try::from_output(output))),
            None => None,
        }
    }

    /// Returns the next item out of the queue, or if there is none, advances the given
    /// stream by one `pull` and returns either the first item queued as a result of that
    /// or, if none was queued, the output that the pull gave, wrapped again: `None` when
    /// the pull gives nothing.
    ///
    /// The pull is handed the stream and this queue, the one way in which it can shunt
    /// what it passes: `|stream, queue| queue.next_unwrapped(stream)` recombines a stream
    /// of short-circuiting values as it is, `|outputs, _| outputs.next()` takes from a
    /// stream of outputs. With an empty queue the pull must accept the two as they stand.
    fn next_wrapped<O, S, P>(&mut self, stream: &mut S, pull: P) -> (next: Option<Self::Item>) where
        Self::Item: Try<Output = O>,
        P: FnOnce(&mut S, &mut Self) -> Option<O>,

        requires
            old(self).pending().len() == 0 ==> forall|source: &mut S, queue: &mut Self|
                *source == *old(stream) && queue.pending().len() == 0
                    ==> #[trigger] call_requires(pull, (source, queue)),
        ensures
            old(self).pending().len() > 0 ==> {
                &&& next == Some(old(self).pending()[0])
                &&& final(self).pending() == old(self).pending().drop_first()
                &&& *final(stream) == *old(stream)
            },
            old(self).pending().len() == 0 ==> exists|
                source: &mut S,
                queue: &mut Self,
                pulled: Option<O>,
            |
                {
                    &&& *source == *old(stream)
                    &&& queue.pending().len() == 0
                    &&& #[trigger] call_ensures(pull, (source, queue), pulled)
                    &&& *final(stream) == *final(source)
                    &&& next == rewrapped::<Self::Item>(final(queue).pending(), pulled)
                    &&& final(self).pending() == after_rewrapped::<Self::Item>(
                        final(queue).pending(),
                        pulled,
                    )
                },
    {
        if let Some(next) = self.pop() {
            Some(next)
        } else {
            let pulled = pull(stream, self);
            self.rewrap(pulled)
        }
    }
}

/// One call on a buffer: `push`, `pop` or `push_and_pop`, with the value it was given.
pub enum BufferCall<T> {
    /// `push` of the value.
    Push(T),
    /// `pop`.
    Pop,
    /// `push_and_pop` of the value.
    PushAndPop(T),
}

/// The value that `call` hands to the buffer, if it hands it one.
pub open spec fn enqueued_by<T>(call: BufferCall<T>) -> Seq<T> {
    match call {
        BufferCall::Push(input) => seq![input],
        BufferCall::Pop => Seq::empty(),
        BufferCall::PushAndPop(input) => seq![input],
    }
}

/// The value that `call` gets out of a buffer that holds `pending`, if it gets one.
pub open spec fn released_by<T>(pending: Seq<T>, call: BufferCall<T>) -> Seq<T> {
    match call {
        BufferCall::Push(_) => Seq::empty(),
        BufferCall::Pop => match popped(pending) {
            Some(next) => seq![next],
            None => Seq::empty(),
        },
        BufferCall::PushAndPop(input) => seq![released(pending, input)],
    }
}

/// What a buffer that holds `pending` holds after `call`.
pub open spec fn pending_after<T>(pending: Seq<T>, call: BufferCall<T>) -> Seq<T> {
    match call {
        BufferCall::Push(input) => pending.push(input),
        BufferCall::Pop => after_pop(pending),
        BufferCall::PushAndPop(input) => requeued(pending, input),
    }
}

/// The values handed to the buffer by `calls`, in the order of the calls.
pub open spec fn enqueued_by_all<T>(calls: Seq<BufferCall<T>>) -> Seq<T>
    decreases calls.len(),
{
    if calls.len() == 0 {
        Seq::empty()
    } else {
        enqueued_by(calls[0]) + enqueued_by_all(calls.drop_first())
    }
}

/// The values that `calls`, made one after the other on a buffer that holds `pending`,
/// get out of it, in the order of the calls.
pub open spec fn released_by_all<T>(pending: Seq<T>, calls: Seq<BufferCall<T>>) -> Seq<T>
    decreases calls.len(),
{
    if calls.len() == 0 {
        Seq::empty()
    } else {
        released_by(pending, calls[0]) + released_by_all(
            pending_after(pending, calls[0]),
            calls.drop_first(),
        )
    }
}

/// What a buffer that holds `pending` holds after `calls`, made one after the other.
pub open spec fn pending_after_all<T>(pending: Seq<T>, calls: Seq<BufferCall<T>>) -> Seq<T>
    decreases calls.len(),
{
    if calls.len() == 0 {
        pending
    } else {
        pending_after_all(pending_after(pending, calls[0]), calls.drop_first())
    }
}

/// First in, first out: whatever calls are made in whatever order, the values that came
/// out, followed by those that still wait, are the values that waited before, followed by
/// those that were handed in. So values leave in exactly the order in which they came,
/// none is lost and none is made up.
pub proof fn lemma_first_in_first_out<T>(pending: Seq<T>, calls: Seq<BufferCall<T>>)
    ensures
        released_by_all(pending, calls) + pending_after_all(pending, calls) == pending
            + enqueued_by_all(calls),
    decreases calls.len(),
{
    if calls.len() == 0 {
        assert(released_by_all(pending, calls) + pending_after_all(pending, calls) =~= pending
            + enqueued_by_all(calls));
    } else {
        let call = calls[0];
        let rest = calls.drop_first();
        let then = pending_after(pending, call);
        lemma_first_in_first_out(then, rest);
        assert(released_by(pending, call) + then =~= pending + enqueued_by(call));
        assert(released_by_all(pending, calls) + pending_after_all(pending, calls) =~= released_by(
            pending,
            call,
        ) + (released_by_all(then, rest) + pending_after_all(then, rest)));
        assert(pending + enqueued_by_all(calls) =~= (pending + enqueued_by(call))
            + enqueued_by_all(rest));
        assert(released_by(pending, call) + (then + enqueued_by_all(rest)) =~= (released_by(
            pending,
            call,
        ) + then) + enqueued_by_all(rest));
    }
}

/// The buffer that pipelines use unless they are given another: a queue that grows as it
/// must. It has one owner at a time; there is no second handle to it and it cannot be
/// copied, so whoever holds it sees every value that was pushed and not yet popped.
pub struct Buffer<T> {
    queue: VecDeque<T>,
}

impl<T> View for Buffer<T> {
    type V = Seq<T>;

    closed spec fn view(&self) -> Seq<T> {
        self.queue@
    }
}

impl<T> Buffer<T> {
    /// A buffer that holds nothing.
    pub fn new() -> (buffer: Self)
        ensures
            buffer@ == Seq::<T>::empty(),
    {
        Buffer { queue: VecDeque::new() }
    }

    /// How many values wait in the buffer.
    pub fn len(&self) -> (len: usize)
        ensures
            len == self@.len(),
    {
        self.queue.len()
    }

    /// Whether nothing waits in the buffer.
    pub fn is_empty(&self) -> (empty: bool)
        ensures
            empty == (self@.len() == 0),
    {
        self.queue.len() == 0
    }
}

impl<T> Default for Buffer<T> {
    /// A buffer that holds nothing.
    fn default() -> (buffer: Self)
        ensures
            buffer@ == Seq::<T>::empty(),
    {
        Buffer::new()
    }
}

impl<T> ControlFlowBuffer for Buffer<T> {
    type Item = T;

    open spec fn pending(&self) -> Seq<T> {
        self@
    }

    fn push(&mut self, input: T) {
        self.queue.push_back(input)
    }

    fn pop(&mut self) -> (next: Option<T>) {
        self.queue.pop_front()
    }
}

} // verus!
