//! How an animation is set up before it first runs.

use vstd::prelude::*;

verus! {

/// The way in which time moves through a timeline.
#[derive(Clone, Copy, PartialEq, Eq, Debug, Structural)]
pub enum Direction {
    /// From time zero towards the end.
    Forward,
    /// From the end towards time zero.
    Backward,
}

/// The settings of one animation.
#[derive(Clone, Copy, PartialEq, Eq, Structural)]
pub struct Context {
    /// Whether the animation runs as soon as it exists.
    pub auto_start: bool,
    /// The direction of the first run, which also decides at which end of
    /// the timeline the value rests before that run.
    pub starting_direction: Direction,
}

impl Default for Context {
    /// An animation that waits to be run, forwards.
    fn default() -> (ctx: Context)
        ensures
            ctx == (Context { auto_start: false, starting_direction: Direction::Forward }),
    {
        Context { auto_start: false, starting_direction: Direction::Forward }
    }
}

impl Context {
    /// Lets the animation run as soon as it exists.
    pub fn auto_start(&mut self) -> (ctx: &mut Self)
        ensures
            *ctx == (Context { auto_start: true, starting_direction: old(self).starting_direction }),
            *final(self) == *final(ctx),
    {
        self.auto_start = true;
        self
    }

    /// Sets the direction of the first run.
    pub fn starting_direction(&mut self, direction: Direction) -> (ctx: &mut Self)
        ensures
            *ctx == (Context { auto_start: old(self).auto_start, starting_direction: direction }),
            *final(self) == *final(ctx),
    {
        self.starting_direction = direction;
        self
    }
}

} // verus!
