//! Easing curves and the values that can follow them.

use vstd::prelude::*;

verus! {

/// The curve along which a segment moves from its start to its end.
///
/// A curve maps `(time, start, delta, duration)` to the value at `time`. The
/// crate never looks inside `F`: it hands the curve to [`Easable::ease`].
#[derive(PartialEq, Debug)]
pub enum Easing<F> {
    /// The curve that answers `start` at every time: the segment holds its
    /// start value.
    Constant,
    /// A curve chosen by the caller.
    Function(F),
}

/// Whether `copy` may be what cloning `easing` gives: the same kind of curve,
/// and a clone of the caller's curve where there is one.
pub open spec fn easing_cloned<F: Clone>(easing: Easing<F>, copy: Easing<F>) -> bool {
    match (easing, copy) {
        (Easing::Constant, Easing::Constant) => true,
        (Easing::Function(function), Easing::Function(cloned_function)) => cloned(
            function,
            cloned_function,
        ),
        _ => false,
    }
}

impl<F: Clone> Clone for Easing<F> {
    fn clone(&self) -> (copy: Self)
        ensures
            easing_cloned(*self, copy),
    {
        match self {
            Easing::Constant => Easing::Constant,
            Easing::Function(function) => Easing::Function(function.clone()),
        }
    }
}

impl<F: Copy> Copy for Easing<F> {

}

/// A value that can be interpolated towards another value of its type.
///
/// `F` is the type of the curves that the value understands. `Output` is what
/// an interpolation yields, which need not be `Self`.
pub trait Easable<F>: Sized {
    type Output;

    /// The value `time` milliseconds into a move of `duration` milliseconds
    /// from `self` to `to` along `function`. Code that is compiled without
    /// being verified defines it as what `ease` computes.
    spec fn eased(&self, to: &Self, time: u32, duration: u32, function: &Easing<F>) -> Self::Output;

    /// Computes [`Self::eased`]: an interpolation depends on its arguments
    /// alone, and the same arguments give the same value again.
    fn ease(&self, to: &Self, time: u32, duration: u32, function: &Easing<F>) -> (out: Self::Output)
        ensures
            out == self.eased(to, time, duration, function),
    ;
}

} // verus!
