//! The filtering iterator, which unwraps a stream and shunts what diverges into a buffer,
//! and the recombining iterator, which puts the buffered values back in their places.
use crate::bounds::{larger_bound, reported_hint, reports, rewrapped_hint, unwrapped_hint};
use crate::buffer::{
    after_rewrapped, after_unwrapped, leading_divergent, lemma_leading_divergent_is_first_normal,
    rewrapped, shunted, unwrapped, ControlFlowBuffer,
};
use crate::try_polyfill::{is_normal, Try};
use vstd::prelude::*;
use vstd::std_specs::iter::IteratorSpec;

verus! {

/// A stream of the outputs of the normal values of a source; the divergent values it
/// passes on the way wait in its buffer. Nothing but the iterator's own `next` reaches the
/// source or the buffer while the iterator holds them.
pub struct FilteredIter<Input, Buffer> {
    input_iter: Input,
    buffer: Buffer,
}

impl<I, B> FilteredIter<I, B> {
    /// The stream of short-circuiting values that is unwrapped.
    pub closed spec fn source(&self) -> I {
        self.input_iter
    }

    /// The buffer where the divergent values go.
    pub closed spec fn queue(&self) -> B {
        self.buffer
    }
}

impl<I, B, T> FilteredIter<I, B> where I: Iterator<Item = T> {
    /// A filtering iterator over `input_iter` that shunts into `buffer`.
    pub fn new(input_iter: I, buffer: B) -> (iter: Self)
        ensures
            iter.source() == input_iter,
            iter.queue() == buffer,
    {
        Self { input_iter, buffer }
    }

    /// Gives back what is left of the source, and the buffer with what was shunted.
    pub fn into_parts(self) -> (parts: (I, B))
        ensures
            parts.0 == self.source(),
            parts.1 == self.queue(),
    {
        (self.input_iter, self.buffer)
    }
}

impl<I, B, T> FilteredIter<I, B> where I: Iterator<Item = T>, T: Try, B: ControlFlowBuffer<Item = T> {
    /// The output of the next normal value of the source, or `None` when the source ends
    /// first. Every divergent value passed on the way joins the buffer; none is dropped.
    ///
    /// The source must be one whose `next` is specified and that has a measure of what is
    /// left of it; the measure has gone down when an output is handed out.
    pub fn next(&mut self) -> (next: Option<T::Output>)
        requires
            old(self).source().obeys_prophetic_iter_laws(),
            old(self).source().decrease() is Some,
        ensures
            next == unwrapped(old(self).source().remaining()),
            final(self).source().remaining() == after_unwrapped(old(self).source().remaining()),
            final(self).queue().pending() == old(self).queue().pending() + shunted(
                old(self).source().remaining(),
            ),
            final(self).source().obeys_prophetic_iter_laws(),
            final(self).source().decrease() is Some,
            next is Some ==> decreases_to!(old(self).source().decrease()->0 =>
                final(self).source().decrease()->0),
    {
        self.buffer.next_unwrapped(&mut self.input_iter)
    }

    /// The size estimate: since this is a filtering iterator it may give out fewer items
    /// than its source, down to none, and never more. The lower bound is 0 and the upper
    /// bound is the one that the source reports.
    pub fn size_hint(&self) -> (hint: (usize, Option<usize>))
        ensures
            hint.0 == 0,
            exists|source_hint: (usize, Option<usize>)|
                #[trigger] reports(&self.source(), source_hint) && hint == (
                    0usize,
                    source_hint.1,
                ),
    {
        let source_hint = reported_hint(&self.input_iter);
        assert(reports(&self.source(), source_hint));
        unwrapped_hint(source_hint)
    }
}

/// A stream of short-circuiting values: the outputs that a transformation makes of a
/// filtering iterator, wrapped again, with the divergent values that the filtering
/// iterator shunted put back before them. The filtering iterator is handed to the
/// transformation and to nothing else.
pub struct DefilteredIter<Input, Buffer, Transform> {
    filtered: FilteredIter<Input, Buffer>,
    transform: Transform,
    transformed_max: Option<usize>,
    original_max: Option<usize>,
}

impl<I, B, F> DefilteredIter<I, B, F> {
    /// The filtering iterator that the transformation pulls from.
    pub closed spec fn filtered(&self) -> FilteredIter<I, B> {
        self.filtered
    }

    /// The transformation: one call pulls what it needs and gives the next output.
    pub closed spec fn transform(&self) -> F {
        self.transform
    }

    /// The upper bound of the transformed stream: how many outputs the transformation can
    /// give at most, as whoever built the iterator states it; `None` where it has none.
    pub closed spec fn transformed_max(&self) -> Option<usize> {
        self.transformed_max
    }

    /// The upper bound of the source's size before any of it was pulled.
    pub closed spec fn original_max(&self) -> Option<usize> {
        self.original_max
    }
}

impl<I, B, T, F> DefilteredIter<I, B, F> where
    I: Iterator<Item = T>,
    T: Try,
    B: ControlFlowBuffer<Item = T>,
    F: Fn(&mut FilteredIter<I, B>) -> Option<T::Output>,
 {
    /// A recombining iterator over what `transform` makes of `filtered`, for a
    /// transformation that gives at most `transformed_max` outputs and a source that had
    /// at most `original_max` items.
    pub fn new(
        filtered: FilteredIter<I, B>,
        transform: F,
        transformed_max: Option<usize>,
        original_max: Option<usize>,
    ) -> (iter: Self)
        ensures
            iter.filtered() == filtered,
            iter.transform() == transform,
            iter.transformed_max() == transformed_max,
            iter.original_max() == original_max,
    {
        Self { filtered, transform, transformed_max, original_max }
    }

    /// The next value of the recombined stream. A value that waits in the buffer goes
    /// first. With none waiting, the transformation is run once on the filtering iterator:
    /// when it gives no output the stream is exhausted, else its output is wrapped again
    /// and queued behind whatever the pull shunted, and the oldest of these is handed out.
    ///
    /// With an empty buffer the transformation must accept the filtering iterator as it
    /// stands. What the transformation says of the filtering iterator it leaves, such as
    /// that the source's measure went down, holds of the filtering iterator of `self`.
    pub fn next(&mut self) -> (next: Option<T>)
        requires
            old(self).filtered().queue().pending().len() == 0 ==> forall|
                stream: &mut FilteredIter<I, B>,
            |
                stream.source() == old(self).filtered().source()
                    && stream.queue().pending().len() == 0 ==> #[trigger] call_requires(
                    old(self).transform(),
                    (stream,),
                ),
        ensures
            final(self).transform() == old(self).transform(),
            final(self).transformed_max() == old(self).transformed_max(),
            final(self).original_max() == old(self).original_max(),
            old(self).filtered().queue().pending().len() > 0 ==> {
                &&& next == Some(old(self).filtered().queue().pending()[0])
                &&& final(self).filtered().queue().pending() == old(
                    self,
                ).filtered().queue().pending().drop_first()
                &&& final(self).filtered().source() == old(self).filtered().source()
            },
            old(self).filtered().queue().pending().len() == 0 ==> exists|
                stream: &mut FilteredIter<I, B>,
                pulled: Option<T::Output>,
            |
                {
                    &&& stream.source() == old(self).filtered().source()
                    &&& stream.queue().pending().len() == 0
                    &&& #[trigger] call_ensures(old(self).transform(), (stream,), pulled)
                    &&& final(self).filtered().source() == final(stream).source()
                    &&& next == rewrapped(final(stream).queue().pending(), pulled)
                    &&& final(self).filtered().queue().pending() == after_rewrapped(
                        final(stream).queue().pending(),
                        pulled,
                    )
                },
    {
        if let Some(next) = self.filtered.buffer.pop() {
            Some(next)
        } else {
            assert(old(self).transform() == self.transform);
            assert(forall|stream: &mut FilteredIter<I, B>|
                stream.source() == self.filtered.source() && stream.queue().pending().len() == 0
                    ==> #[trigger] call_requires(self.transform, (stream,)));
            let pulled = (self.transform)(&mut self.filtered);
            self.filtered.buffer.rewrap(pulled)
        }
    }

    /// The size estimate: no lower bound, and as upper bound the larger of the bound of
    /// the transformed stream, which may give more outputs than it pulls, and the bound
    /// that the source had before any of it was pulled, since the divergent values are
    /// added back in. Where either is missing the stream has no upper bound.
    pub fn size_hint(&self) -> (hint: (usize, Option<usize>))
        ensures
            hint == (0usize, larger_bound(self.transformed_max(), self.original_max())),
    {
        rewrapped_hint(self.transformed_max, self.original_max)
    }
}

/// What one call of the recombining iterator hands out when its transformation is the
/// filtering iterator's own `next`, which hands every output on unchanged; `source` is
/// still to come and `pending` waits in the buffer.
pub open spec fn recombined_next<T: Try>(source: Seq<T>, pending: Seq<T>) -> Option<T> {
    if pending.len() > 0 {
        Some(pending[0])
    } else {
        rewrapped(shunted(source), unwrapped(source))
    }
}

/// What that call leaves of `source`.
pub open spec fn recombined_source<T: Try>(source: Seq<T>, pending: Seq<T>) -> Seq<T> {
    if pending.len() > 0 {
        source
    } else {
        after_unwrapped(source)
    }
}

/// What that call leaves in the buffer.
pub open spec fn recombined_pending<T: Try>(source: Seq<T>, pending: Seq<T>) -> Seq<T> {
    if pending.len() > 0 {
        pending.drop_first()
    } else {
        after_rewrapped(shunted(source), unwrapped(source))
    }
}

/// All that such calls, made one after the other, hand out before the first of them
/// reports exhaustion.
pub open spec fn recombined<T: Try>(source: Seq<T>, pending: Seq<T>) -> Seq<T>
    decreases source.len() + pending.len(),
{
    match recombined_next(source, pending) {
        Some(next) => {
            proof {
                lemma_leading_divergent_is_first_normal(source);
            }
            seq![next] + recombined(
                recombined_source(source, pending),
                recombined_pending(source, pending),
            )
        },
        None => Seq::empty(),
    }
}

/// What waits in the buffer when the first of such calls has reported exhaustion.
pub open spec fn left_pending<T: Try>(source: Seq<T>, pending: Seq<T>) -> Seq<T>
    decreases source.len() + pending.len(),
{
    match recombined_next(source, pending) {
        Some(_) => {
            proof {
                lemma_leading_divergent_is_first_normal(source);
            }
            left_pending(recombined_source(source, pending), recombined_pending(source, pending))
        },
        None => recombined_pending(source, pending),
    }
}

/// What is left of the source when the first of such calls has reported exhaustion.
pub open spec fn left_source<T: Try>(source: Seq<T>, pending: Seq<T>) -> Seq<T>
    decreases source.len() + pending.len(),
{
    match recombined_next(source, pending) {
        Some(_) => {
            proof {
                lemma_leading_divergent_is_first_normal(source);
            }
            left_source(recombined_source(source, pending), recombined_pending(source, pending))
        },
        None => recombined_source(source, pending),
    }
}

/// Recombination keeps every value in its place: under the transformation that hands
/// every output on unchanged, what the recombining iterator hands out up to its first
/// report of exhaustion, followed by what then waits in the buffer, is what waited in the
/// buffer at the start followed by the source, value for value and in the same order.
pub proof fn lemma_recombination_keeps_order<T: Try>(source: Seq<T>, pending: Seq<T>)
    ensures
        recombined(source, pending) + left_pending(source, pending) == pending + source,
    decreases source.len() + pending.len(),
{
    lemma_leading_divergent_is_first_normal(source);
    let count = leading_divergent(source);
    let then_source = recombined_source(source, pending);
    let then_pending = recombined_pending(source, pending);
    if pending.len() > 0 {
        lemma_recombination_keeps_order(then_source, then_pending);
        assert(seq![pending[0]] + (then_pending + source) =~= pending + source);
        assert(recombined(source, pending) + left_pending(source, pending) =~= seq![pending[0]]
            + (recombined(then_source, then_pending) + left_pending(then_source, then_pending)));
    } else if count < source.len() {
        source[count].lemma_rebuild();
        lemma_recombination_keeps_order(then_source, then_pending);
        assert(seq![source[0]] + (then_pending + then_source) =~= pending + source);
        assert(recombined(source, pending) + left_pending(source, pending) =~= seq![source[0]]
            + (recombined(then_source, then_pending) + left_pending(then_source, then_pending)));
    } else {
        assert(recombined(source, pending) + left_pending(source, pending) =~= pending + source);
    }
}

/// Nothing is left waiting when the source does not end in a divergent value.
pub proof fn lemma_nothing_left_pending<T: Try>(source: Seq<T>, pending: Seq<T>)
    requires
        source.len() > 0 ==> is_normal(source.last()),
    ensures
        left_pending(source, pending) == Seq::<T>::empty(),
    decreases source.len() + pending.len(),
{
    lemma_leading_divergent_is_first_normal(source);
    let then_source = recombined_source(source, pending);
    let then_pending = recombined_pending(source, pending);
    if pending.len() > 0 {
        lemma_nothing_left_pending(then_source, then_pending);
    } else if leading_divergent(source) < source.len() {
        lemma_nothing_left_pending(then_source, then_pending);
    } else {
        assert(left_pending(source, pending) =~= Seq::<T>::empty());
    }
}

/// Exhaustion is reported only when the whole source has been pulled.
pub proof fn lemma_source_is_spent<T: Try>(source: Seq<T>, pending: Seq<T>)
    ensures
        left_source(source, pending) == Seq::<T>::empty(),
    decreases source.len() + pending.len(),
{
    lemma_leading_divergent_is_first_normal(source);
    if recombined_next(source, pending) is Some {
        lemma_source_is_spent(
            recombined_source(source, pending),
            recombined_pending(source, pending),
        );
    }
}

/// The round trip of a pipeline that is pulled dry: for every source, what the pipeline
/// hands out up to its first report of exhaustion, followed by what it hands out when it
/// is pulled on from there, is the source, value for value and in the same order. By then
/// the source is spent and nothing waits in the buffer.
pub proof fn lemma_round_trip_when_pulled_dry<T: Try>(source: Seq<T>)
    ensures
        recombined(source, Seq::empty()) + recombined(
            left_source(source, Seq::empty()),
            left_pending(source, Seq::empty()),
        ) == source,
        left_pending(left_source(source, Seq::empty()), left_pending(source, Seq::empty()))
            == Seq::<T>::empty(),
{
    let waiting = left_pending(source, Seq::empty());
    lemma_recombination_keeps_order(source, Seq::empty());
    lemma_source_is_spent(source, Seq::empty());
    lemma_recombination_keeps_order(Seq::empty(), waiting);
    lemma_nothing_left_pending(Seq::empty(), waiting);
    assert(recombined(Seq::empty(), waiting) =~= waiting);
    assert(Seq::<T>::empty() + source =~= source);
}

/// The identity round trip: run with the transformation that hands every output on
/// unchanged and pulled until it first reports exhaustion, the filter-recombine pipeline
/// reproduces its source, in the same order, whenever the source does not end in a
/// divergent value. (A run of divergent values at the very end of the source is pulled by
/// the call that reports exhaustion, and waits in the buffer: see
/// `lemma_recombination_keeps_order`.)
pub proof fn lemma_identity_round_trip<T: Try>(source: Seq<T>)
    requires
        source.len() > 0 ==> is_normal(source.last()),
    ensures
        recombined(source, Seq::empty()) == source,
{
    lemma_recombination_keeps_order(source, Seq::empty());
    lemma_nothing_left_pending(source, Seq::empty());
    assert(recombined(source, Seq::empty()) + Seq::<T>::empty() =~= recombined(
        source,
        Seq::empty(),
    ));
    assert(Seq::<T>::empty() + source =~= source);
}

/// The divergent values among `values`, in their order.
pub open spec fn divergent_of<T: Try>(values: Seq<T>) -> Seq<T>
    decreases values.len(),
{
    if values.len() == 0 {
        Seq::empty()
    } else if is_normal(values[0]) {
        divergent_of(values.drop_first())
    } else {
        seq![values[0]] + divergent_of(values.drop_first())
    }
}

/// The items that one call of the filtering iterator takes from `source`: all up to its
/// first normal value, and that one too.
pub open spec fn pulled_from<T: Try>(source: Seq<T>) -> Seq<T> {
    if leading_divergent(source) < source.len() {
        source.take(leading_divergent(source) + 1)
    } else {
        source
    }
}

/// What the filtering iterator shunts is every divergent value that it takes from the
/// source, no more and no less: whatever a transformation pulls, and in however many
/// calls, the buffer gains the divergent values among the items taken, in their order.
pub proof fn lemma_shunted_is_divergent_of_pulled<T: Try>(source: Seq<T>)
    ensures
        shunted(source) == divergent_of(pulled_from(source)),
        pulled_from(source) + after_unwrapped(source) == source,
    decreases source.len(),
{
    lemma_leading_divergent_is_first_normal(source);
    let pulled = pulled_from(source);
    assert(pulled + after_unwrapped(source) =~= source);
    if source.len() == 0 {
        assert(shunted(source) =~= divergent_of(pulled));
    } else if is_normal(source[0]) {
        assert(pulled[0] == source[0]);
        assert(pulled.drop_first() =~= Seq::<T>::empty());
        assert(divergent_of(pulled.drop_first()) =~= Seq::<T>::empty());
        assert(shunted(source) =~= divergent_of(pulled));
    } else {
        let rest = source.drop_first();
        lemma_shunted_is_divergent_of_pulled(rest);
        assert(pulled[0] == source[0]);
        assert(pulled.drop_first() =~= pulled_from(rest));
        assert(shunted(source) =~= seq![source[0]] + shunted(rest));
    }
}

/// The output of a pull wrapped again, if the pull gave one.
pub open spec fn wrapped<T: Try>(pulled: Option<T::Output>) -> Seq<T> {
    match pulled {
        Some(output) => seq![T::from_output_spec(output)],
        None => Seq::empty(),
    }
}

/// What the pulls of a transformation hand on, in the order of the pulls. A pull is the
/// items that it took from the source and the output that it gave; it hands on the
/// divergent values among those items, then its output, wrapped again.
pub open spec fn handed_on<T: Try>(pulls: Seq<(Seq<T>, Option<T::Output>)>) -> Seq<T>
    decreases pulls.len(),
{
    if pulls.len() == 0 {
        Seq::empty()
    } else {
        divergent_of(pulls[0].0) + wrapped::<T>(pulls[0].1) + handed_on(pulls.drop_first())
    }
}

/// All that the recombining iterator hands out under any transformation, when `pending`
/// waits in the buffer, the transformation's pulls to come are `pulls`, and the iterator
/// is pulled until the pulls are used up and nothing waits. A call hands out what waits,
/// oldest first; with nothing waiting it runs the next pull, whose divergent items are
/// then in the buffer, and passes the output through the buffer behind them.
pub open spec fn recombined_with<T: Try>(
    pending: Seq<T>,
    pulls: Seq<(Seq<T>, Option<T::Output>)>,
) -> Seq<T>
    decreases pulls.len(), pending.len(),
{
    if pending.len() > 0 {
        seq![pending[0]] + recombined_with(pending.drop_first(), pulls)
    } else if pulls.len() == 0 {
        Seq::empty()
    } else {
        let shunted = divergent_of(pulls[0].0);
        match rewrapped(shunted, pulls[0].1) {
            Some(next) => seq![next] + recombined_with(
                after_rewrapped(shunted, pulls[0].1),
                pulls.drop_first(),
            ),
            None => recombined_with(shunted, pulls.drop_first()),
        }
    }
}

/// The recombined stream under any transformation: what waited comes first, then, pull by
/// pull, the divergent values that the pull passed followed by the output that it gave.
/// So every divergent value that was taken from the source comes out, none twice, in the
/// order of the source, and between them the transformation's outputs in the order in
/// which it gave them, each after the divergent values that stood before what it was
/// made of.
pub proof fn lemma_recombined_with_any_transformation<T: Try>(
    pending: Seq<T>,
    pulls: Seq<(Seq<T>, Option<T::Output>)>,
)
    ensures
        recombined_with(pending, pulls) == pending + handed_on(pulls),
    decreases pulls.len(), pending.len(),
{
    if pending.len() > 0 {
        lemma_recombined_with_any_transformation(pending.drop_first(), pulls);
        assert(recombined_with(pending, pulls) =~= pending + handed_on(pulls));
    } else if pulls.len() == 0 {
        assert(recombined_with(pending, pulls) =~= pending + handed_on(pulls));
    } else {
        let shunted = divergent_of(pulls[0].0);
        let rest = pulls.drop_first();
        lemma_recombined_with_any_transformation(after_rewrapped(shunted, pulls[0].1), rest);
        lemma_recombined_with_any_transformation(shunted, rest);
        assert(recombined_with(pending, pulls) =~= shunted + wrapped::<T>(pulls[0].1) + handed_on(
            rest,
        ));
        assert(recombined_with(pending, pulls) =~= pending + handed_on(pulls));
    }
}

/// Every output that comes back wrapped is a normal value.
pub proof fn lemma_wrapped_is_normal<T: Try>(output: T::Output)
    ensures
        wrapped::<T>(Some(output)).len() == 1,
        is_normal(wrapped::<T>(Some(output))[0]),
{
    T::lemma_from_output_is_normal(output);
}

} // verus!
