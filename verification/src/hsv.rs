//! Colors as hue, saturation and value.

use vstd::prelude::*;
use crate::easing::{Easable, Easing};

verus! {

/// A color as hue, saturation and value, each in a channel of type `C`.
#[derive(Clone, Copy, PartialEq, Debug)]
pub struct Hsv<C> {
    pub h: C,
    pub s: C,
    pub v: C,
}

/// A color moves through its three channels at once: each channel follows
/// the curve by itself, at the same time and over the same duration. Hue is
/// a channel like the others, and is not taken the short way round the color
/// wheel.
impl<C: Easable<F>, F> Easable<F> for Hsv<C> {
    type Output = Hsv<C::Output>;

    open spec fn eased(&self, to: &Self, time: u32, duration: u32, function: &Easing<F>) -> Hsv<
        C::Output,
    > {
        Hsv {
            h: self.h.eased(&to.h, time, duration, function),
            s: self.s.eased(&to.s, time, duration, function),
            v: self.v.eased(&to.v, time, duration, function),
        }
    }

    fn ease(&self, to: &Self, time: u32, duration: u32, function: &Easing<F>) -> (out: Hsv<
        C::Output,
    >) {
        Hsv {
            h: self.h.ease(&to.h, time, duration, function),
            s: self.s.ease(&to.s, time, duration, function),
            v: self.v.ease(&to.v, time, duration, function),
        }
    }
}

} // verus!
