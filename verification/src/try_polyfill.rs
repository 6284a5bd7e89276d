//! Short-circuiting values: a stand-in for the standard library's unstable `Try` trait.
use core::ops::ControlFlow;
use vstd::prelude::*;

verus! {

/// A value that is either a normal output or a divergent residual.
///
/// `branch` takes a value apart, `from_output` and `from_residual` build one from either
/// side. The two proof functions are the laws every implementation owes: rebuilding what
/// `branch` gave yields the value again, and a value built from an output branches to it.
pub trait Try: Sized {
    /// The payload of a normal value.
    type Output;

    /// The payload of a divergent value.
    type Residual;

    /// What `branch` returns.
    spec fn branch_spec(self) -> ControlFlow<Self::Residual, Self::Output>;

    /// What `from_output` returns.
    spec fn from_output_spec(output: Self::Output) -> Self;

    /// What `from_residual` returns.
    spec fn from_residual_spec(residual: Self::Residual) -> Self;

    /// Wraps a normal output.
    fn from_output(output: Self::Output) -> (value: Self)
        ensures
            value == Self::from_output_spec(output),
    ;

    /// Wraps a divergent residual.
    fn from_residual(residual: Self::Residual) -> (value: Self)
        ensures
            value == Self::from_residual_spec(residual),
    ;

    /// Tells whether the value is normal (`Continue`) or divergent (`Break`), and hands
    /// out its payload.
    fn branch(self) -> (flow: ControlFlow<Self::Residual, Self::Output>)
        ensures
            flow == self.branch_spec(),
    ;

    /// A value is rebuilt unchanged from whichever side `branch` gave.
    proof fn lemma_rebuild(self)
        ensures
            match self.branch_spec() {
                ControlFlow::Continue(output) => Self::from_output_spec(output) == self,
                ControlFlow::Break(residual) => Self::from_residual_spec(residual) == self,
            },
    ;

    /// A value built from an output is normal and holds that output.
    proof fn lemma_from_output_is_normal(output: Self::Output)
        ensures
            Self::from_output_spec(output).branch_spec() == ControlFlow::<
                Self::Residual,
                Self::Output,
            >::Continue(output),
    ;
}

/// Whether `value` is normal.
pub open spec fn is_normal<T: Try>(value: T) -> bool {
    value.branch_spec() is Continue
}

/// Whether `value` is divergent.
pub open spec fn is_divergent<T: Try>(value: T) -> bool {
    value.branch_spec() is Break
}

/// The output that a normal `value` holds.
pub open spec fn output_of<T: Try>(value: T) -> T::Output
    recommends
        is_normal(value),
{
    match value.branch_spec() {
        ControlFlow::Continue(output) => output,
        ControlFlow::Break(_) => arbitrary(),
    }
}

/// The residual that a divergent `value` holds.
pub open spec fn residual_of<T: Try>(value: T) -> T::Residual
    recommends
        is_divergent(value),
{
    match value.branch_spec() {
        ControlFlow::Continue(_) => arbitrary(),
        ControlFlow::Break(residual) => residual,
    }
}

impl<V> Try for Option<V> {
    type Output = V;

    type Residual = ();

    open spec fn branch_spec(self) -> ControlFlow<(), V> {
        match self {
            Some(output) => ControlFlow::Continue(output),
            None => ControlFlow::Break(()),
        }
    }

    open spec fn from_output_spec(output: V) -> Self {
        Some(output)
    }

    open spec fn from_residual_spec(residual: ()) -> Self {
        None
    }

    fn from_output(output: V) -> (value: Self) {
        Some(output)
    }

    fn from_residual(residual: ()) -> (value: Self) {
        None
    }

    fn branch(self) -> (flow: ControlFlow<(), V>) {
        match self {
            Some(output) => ControlFlow::Continue(output),
            None => ControlFlow::Break(()),
        }
    }

    proof fn lemma_rebuild(self) {
    }

    proof fn lemma_from_output_is_normal(output: V) {
    }
}

impl<V, E> Try for Result<V, E> {
    type Output = V;

    type Residual = E;

    open spec fn branch_spec(self) -> ControlFlow<E, V> {
        match self {
            Ok(output) => ControlFlow::Continue(output),
            Err(error) => ControlFlow::Break(error),
        }
    }

    open spec fn from_output_spec(output: V) -> Self {
        Ok(output)
    }

    open spec fn from_residual_spec(residual: E) -> Self {
        Err(residual)
    }

    fn from_output(output: V) -> (value: Self) {
        Ok(output)
    }

    fn from_residual(residual: E) -> (value: Self) {
        Err(residual)
    }

    fn branch(self) -> (flow: ControlFlow<E, V>) {
        match self {
            Ok(output) => ControlFlow::Continue(output),
            Err(error) => ControlFlow::Break(error),
        }
    }

    proof fn lemma_rebuild(self) {
    }

    proof fn lemma_from_output_is_normal(output: V) {
    }
}

} // verus!
