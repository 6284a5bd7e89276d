//! The breaking iterator: a stream of outputs that stops at the first divergent value.
use crate::bounds::{reported_hint, reports, unwrapped_hint};
use crate::try_polyfill::{is_normal, output_of, residual_of, Try};
use core::ops::ControlFlow;
use vstd::prelude::*;
use vstd::std_specs::iter::IteratorSpec;

verus! {

/// What one call of the breaking iterator hands out, when `source` is still to come and
/// the result slot holds `slot`.
pub open spec fn broken_next<T: Try>(source: Seq<T>, slot: Option<T::Residual>) -> Option<
    T::Output,
> {
    if slot is None && source.len() > 0 && is_normal(source[0]) {
        Some(output_of(source[0]))
    } else {
        None
    }
}

/// What one call of the breaking iterator leaves of `source`: nothing is pulled once the
/// slot is filled, else the head is.
pub open spec fn broken_source<T: Try>(source: Seq<T>, slot: Option<T::Residual>) -> Seq<T> {
    if slot is None && source.len() > 0 {
        source.drop_first()
    } else {
        source
    }
}

/// What one call of the breaking iterator leaves in the result slot: the residual of the
/// head of `source` if the slot was empty and the head diverges, else what it held.
pub open spec fn broken_slot<T: Try>(source: Seq<T>, slot: Option<T::Residual>) -> Option<
    T::Residual,
> {
    if slot is None && source.len() > 0 && !is_normal(source[0]) {
        Some(residual_of(source[0]))
    } else {
        slot
    }
}

/// A stream of the outputs of a source up to its first divergent value, whose residual
/// goes to the result slot that the iterator borrows. Nothing but the iterator's own
/// `next` reaches the source or writes the slot while the iterator holds them.
pub struct BreakingIterator<'a, Input, Residual> {
    input_iter: Input,
    result: &'a mut Option<Residual>,
}

impl<'a, I, R> BreakingIterator<'a, I, R> {
    /// The stream of short-circuiting values that is unwrapped.
    pub closed spec fn source(&self) -> I {
        self.input_iter
    }

    /// The borrow of the result slot: what it holds now is empty until a divergent value
    /// is met and then that value's residual; what it holds in the end is what its owner
    /// finds there when the iterator is gone.
    pub closed spec fn result(&self) -> &'a mut Option<R> {
        self.result
    }

    /// When the iterator is done with, the slot keeps what the iterator last held there.
    pub proof fn lemma_slot_is_settled(self)
        requires
            has_resolved(self),
        ensures
            *self.result() == *final(self.result()),
    {
    }
}

impl<'a, I, T, R> BreakingIterator<'a, I, R> where I: Iterator<Item = T>, T: Try<Residual = R> {
    /// A breaking iterator over `input_iter` that records into `result`.
    pub fn new(input_iter: I, result: &'a mut Option<R>) -> (iter: Self)
        ensures
            iter.source() == input_iter,
            *iter.result() == *old(result),
            *final(iter.result()) == *final(result),
    {
        Self { input_iter, result }
    }

    /// The next output, or `None` once the source is exhausted or a divergent value was
    /// met. With a filled slot nothing is pulled and nothing changes; with an empty one
    /// the head of the source is pulled, and either handed out or recorded in the slot;
    /// the source's measure, where it has one, goes down with every item pulled.
    pub fn next(&mut self) -> (next: Option<T::Output>)
        ensures
            *final(final(self).result()) == *final(old(self).result()),
            final(self).source().obeys_prophetic_iter_laws() == old(
                self,
            ).source().obeys_prophetic_iter_laws(),
            *old(self).result() is Some ==> {
                &&& next is None
                &&& *final(self).result() == *old(self).result()
                &&& final(self).source() == old(self).source()
            },
            next is Some ==> *final(self).result() is None,
            old(self).source().obeys_prophetic_iter_laws() ==> {
                &&& next == broken_next(old(self).source().remaining(), *old(self).result())
                &&& final(self).source().remaining() == broken_source(
                    old(self).source().remaining(),
                    *old(self).result(),
                )
                &&& *final(self).result() == broken_slot(
                    old(self).source().remaining(),
                    *old(self).result(),
                )
                &&& final(self).source().decrease() is Some == old(
                    self,
                ).source().decrease() is Some
                &&& *old(self).result() is None && old(self).source().remaining().len() > 0
                    && final(self).source().decrease() is Some ==> decreases_to!(old(self).source().decrease()->0 =>
                    final(self).source().decrease()->0)
            },
    {
        // always return None after we've found a break result
        if self.result.is_none() {
            match self.input_iter.next() {
                None => None,
                Some(item) => match item.branch() {
                    ControlFlow::Continue(next) => Some(next),
                    ControlFlow::Break(residual) => {
                        *self.result = Some(residual);
                        None
                    },
                },
            }
        } else {
            None
        }
    }

    /// The size estimate: since this iterator stops at the first divergent value it may
    /// give out fewer items than its source, down to none, and never more. The lower
    /// bound is 0 and the upper bound is the one that the source reports.
    pub fn size_hint(&self) -> (hint: (usize, Option<usize>))
        ensures
            hint.0 == 0,
            exists|source_hint: (usize, Option<usize>)|
                #[trigger] reports(&self.source(), source_hint) && hint == (
                    0usize,
                    source_hint.1,
                ),
    {
        let source_hint = reported_hint(&self.input_iter);
        assert(reports(&self.source(), source_hint));
        unwrapped_hint(source_hint)
    }
}

/// What the fold pipeline returns when the result slot ended as `slot` and the fold gave
/// `output`: the divergent value of the recorded residual, else the normal value of the
/// fold's output.
pub open spec fn folded<T: Try>(slot: Option<T::Residual>, output: T::Output) -> T {
    match slot {
        Some(residual) => T::from_residual_spec(residual),
        None => T::from_output_spec(output),
    }
}

/// The result of a fold that gave `output` and left `slot` in the result slot. A recorded
/// residual wins, and the fold's output is then discarded.
pub fn fold_result<T: Try>(slot: Option<T::Residual>, output: T::Output) -> (value: T)
    ensures
        value == folded::<T>(slot, output),
{
    // if anything is in the result slot it is the residual of a divergent value
    if let Some(residual) = slot {
        T::from_residual(residual)
    } else {
        T::from_output(output)
    }
}

/// What is left of `source` after `calls` calls of the breaking iterator, the first of
/// them made with `slot` in the result slot.
pub open spec fn broken_source_after<T: Try>(
    source: Seq<T>,
    slot: Option<T::Residual>,
    calls: nat,
) -> Seq<T>
    decreases calls,
{
    if calls == 0 {
        source
    } else {
        broken_source_after(broken_source(source, slot), broken_slot(source, slot), (calls - 1) as nat)
    }
}

/// What the result slot holds after `calls` calls of the breaking iterator, the first of
/// them made with `source` still to come and `slot` in the slot.
pub open spec fn broken_slot_after<T: Try>(
    source: Seq<T>,
    slot: Option<T::Residual>,
    calls: nat,
) -> Option<T::Residual>
    decreases calls,
{
    if calls == 0 {
        slot
    } else {
        broken_slot_after(broken_source(source, slot), broken_slot(source, slot), (calls - 1) as nat)
    }
}

/// What the call that follows `calls` calls of the breaking iterator hands out.
pub open spec fn broken_next_after<T: Try>(
    source: Seq<T>,
    slot: Option<T::Residual>,
    calls: nat,
) -> Option<T::Output> {
    broken_next(broken_source_after(source, slot, calls), broken_slot_after(source, slot, calls))
}

/// Exhaustion is stable: once a residual is recorded, every later call reports
/// exhaustion, however many are made, and none of them changes the result slot or pulls
/// from the source.
pub proof fn lemma_exhaustion_is_stable<T: Try>(
    source: Seq<T>,
    slot: Option<T::Residual>,
    calls: nat,
)
    requires
        slot is Some,
    ensures
        broken_next_after(source, slot, calls) is None,
        broken_slot_after(source, slot, calls) == slot,
        broken_source_after(source, slot, calls) == source,
    decreases calls,
{
    if calls > 0 {
        lemma_exhaustion_is_stable(source, slot, (calls - 1) as nat);
    }
}

/// The breaking iterator stops at the first divergent value: where `source` starts with
/// `count` normal values and a divergent one follows, the first `count` calls hand out
/// the outputs of those, the next call reports exhaustion, and the result slot then
/// holds the residual of that divergent value, and of no later one: a fold that pulled so
/// far returns that very value, whatever it summed up on the way.
pub proof fn lemma_breaks_at_first_divergence<T: Try>(source: Seq<T>, count: nat)
    requires
        count < source.len(),
        forall|i: int| 0 <= i < count ==> is_normal(#[trigger] source[i]),
        !is_normal(source[count as int]),
    ensures
        forall|i: nat|
            i < count ==> #[trigger] broken_next_after(source, None, i) == Some(
                output_of(source[i as int]),
            ),
        broken_next_after(source, None, count) is None,
        broken_slot_after(source, None, count + 1) == Some(residual_of(source[count as int])),
        broken_source_after(source, None, count + 1) == source.skip(count as int + 1),
        forall|output: T::Output|
            #[trigger] folded::<T>(broken_slot_after(source, None, count + 1), output)
                == source[count as int],
    decreases count,
{
    source[count as int].lemma_rebuild();
    if count > 0 {
        let rest = source.drop_first();
        assert forall|i: int| 0 <= i < count - 1 implies is_normal(#[trigger] rest[i]) by {
            assert(rest[i] == source[i + 1]);
        }
        lemma_breaks_at_first_divergence(rest, (count - 1) as nat);
        assert(rest.skip(count as int) == source.skip(count as int + 1));
        assert forall|i: nat| i < count implies #[trigger] broken_next_after(source, None, i)
            == Some(output_of(source[i as int])) by {
            if i > 0 {
                assert(broken_next_after(source, None, i) == broken_next_after(
                    rest,
                    None,
                    (i - 1) as nat,
                ));
                assert(rest[i - 1] == source[i as int]);
            }
        }
    } else {
        assert(source.drop_first() == source.skip(1));
        reveal_with_fuel(broken_slot_after, 2);
        reveal_with_fuel(broken_source_after, 2);
    }
}

} // verus!
