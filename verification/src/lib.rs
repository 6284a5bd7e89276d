//! Lazy pipelines over streams of short-circuiting values.
//!
//! A stream of `Result`s or `Option`s is split into its normal outputs, which the caller
//! transforms, and its divergent values, which wait in a first-in first-out buffer and are
//! put back where they stood; or it is folded up to its first divergent value.
use crate::bounds::{reported_hint, reports};
use crate::breaking::{fold_result, folded, BreakingIterator};
use crate::buffer::{Buffer, ControlFlowBuffer};
use crate::filtered::{DefilteredIter, FilteredIter};
use crate::try_polyfill::Try;
use vstd::prelude::*;

pub mod bounds;
pub mod breaking;
pub mod buffer;
pub mod filtered;
pub mod try_polyfill;

verus! {

/// Including this trait adds the `with_filtered` and `with_filtered_buf` helper functions
/// to any iterator.
///
/// They break an iterator of wrapped values out into its normal values (`Ok`, `Some`), let
/// the caller transform the stream of those, and give an iterator of the divergent values
/// (`Err`, `None`) and the transformed ones together, in the order in which they were
/// evaluated. Only the runs of divergent values are stored, in a queue.
///
/// The transformation `f` is given as its pull: each call takes from the filtering
/// iterator what it needs and returns the next transformed output, or `None` at the end.
/// It may drop outputs, and it may give more than it pulls where it keeps what it needs
/// for that between calls; it must hand the outputs on in the order in which it got
/// them. With it comes `transformed_max`, the most outputs that `f` can give in all, or
/// `None` where nothing bounds them: a pull has no size estimate of its own.
pub trait IterFiltered<T>: Iterator {
    /// Takes the `self` iterator and a [`ControlFlowBuffer`] `buf` and gives the iterator
    /// that recombines what `f` makes of the normal values with the divergent values that
    /// were skipped. Nothing is pulled yet; the upper bound that the source reports of
    /// its size is kept as `original_max`, and `transformed_max` as it is given.
    fn with_filtered_buf<B, U, F>(self, buf: B, f: F, transformed_max: Option<usize>) -> (iter:
        DefilteredIter<Self, B, F>) where
        Self: Iterator<Item = T> + Sized,
        F: Fn(&mut FilteredIter<Self, B>) -> Option<U>,
        T: Try<Output = U>,
        B: ControlFlowBuffer<Item = T>,

        ensures
            iter.filtered().source() == self,
            iter.filtered().queue() == buf,
            iter.transform() == f,
            iter.transformed_max() == transformed_max,
            exists|source_hint: (usize, Option<usize>)|
                #[trigger] reports(&self, source_hint) && iter.original_max() == source_hint.1,
    ;

    /// As `with_filtered_buf`, with a fresh [`Buffer`] that holds nothing.
    fn with_filtered<U, F>(self, f: F, transformed_max: Option<usize>) -> (iter: DefilteredIter<
        Self,
        Buffer<T>,
        F,
    >) where
        Self: Iterator<Item = T> + Sized,
        F: Fn(&mut FilteredIter<Self, Buffer<T>>) -> Option<U>,
        T: Try<Output = U>,

        ensures
            iter.filtered().source() == self,
            iter.filtered().queue().pending() == Seq::<T>::empty(),
            iter.transform() == f,
            iter.transformed_max() == transformed_max,
            exists|source_hint: (usize, Option<usize>)|
                #[trigger] reports(&self, source_hint) && iter.original_max() == source_hint.1,
    {
        self.with_filtered_buf(Buffer::default(), f, transformed_max)
    }
}

impl<I, T> IterFiltered<T> for I where I: Iterator<Item = T> {
    fn with_filtered_buf<B, U, F>(self, buffer: B, f: F, transformed_max: Option<usize>) -> (iter:
        DefilteredIter<Self, B, F>) where
        Self: Iterator<Item = T> + Sized,
        F: Fn(&mut FilteredIter<Self, B>) -> Option<U>,
        T: Try<Output = U>,
        B: ControlFlowBuffer<Item = T>,
     {
        let original_max = reported_hint(&self).1;
        let buf_iter = FilteredIter::new(self, buffer);

        DefilteredIter::new(buf_iter, f, transformed_max, original_max)
    }
}

/// Including this trait adds the `with_folding` helper function to any iterator.
///
/// It runs any fold-style operation on the normal values of an iterator of wrapped values
/// and breaks on the first divergent value (`Err`, `None`), without collecting the
/// iterator first.
pub trait IterFolding<T> {
    /// Takes the `self` iterator and calls `f` once, with a [`BreakingIterator`] over it
    /// that records into an empty result slot; returns either the first failure value that
    /// `f` came upon, or the result of `f` as a normal value.
    fn with_folding<O, F, R>(self, f: F) -> (value: T) where
        Self: Iterator<Item = T> + Sized,
        F: Fn(BreakingIterator<Self, R>) -> O,
        T: Try<Output = O, Residual = R>,

        requires
            forall|iter: BreakingIterator<Self, R>|
                iter.source() == self && *iter.result() is None ==> #[trigger] call_requires(
                    f,
                    (iter,),
                ),
        ensures
            exists|iter: BreakingIterator<Self, R>, output: O|
                {
                    &&& iter.source() == self
                    &&& *iter.result() is None
                    &&& #[trigger] call_ensures(f, (iter,), output)
                    &&& value == folded::<T>(*final(iter.result()), output)
                },
    ;
}

impl<I, T> IterFolding<T> for I where I: Iterator<Item = T> {
    fn with_folding<O, F, R>(self, f: F) -> (value: T) where
        Self: Iterator<Item = T> + Sized,
        F: Fn(BreakingIterator<Self, R>) -> O,
        T: Try<Output = O, Residual = R>,
     {
        let mut result = None;
        let buf_iter = BreakingIterator::new(self, &mut result);

        let ok_res = f(buf_iter);

        fold_result(result, ok_res)
    }
}

} // verus!
