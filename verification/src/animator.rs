//! The scheduler: a timeline, its schedule and the value that it shows.

use vstd::prelude::*;
use crate::context::{Context, Direction};
use crate::schedule::{starting_index, Schedule};
use crate::timeline::AnimatedValue;

verus! {

/// What a scheduler holds.
pub struct Animation<O, Animated> {
    /// The timeline that is played.
    pub animated: Animated,
    /// The settings with which the scheduler was made.
    pub ctx: Context,
    /// Where the run stands.
    pub schedule: Schedule,
    /// The time index that was sampled last.
    pub index: u32,
    /// The value that is shown.
    pub value: O,
}

impl<O, Animated: AnimatedValue<Output = O>> Animation<O, Animated> {
    /// The value that is shown is the timeline's value at the time index
    /// that was sampled last.
    pub open spec fn shows_sample(self) -> bool {
        &&& self.index <= self.animated.spec_duration()
        &&& self.value == self.animated.sample(self.index)
    }
}

/// Plays a timeline: holds the value that is shown and moves it along the
/// timeline as ticks arrive.
///
/// Only [`UseAnimator::tick`] changes the value, and it puts a whole new
/// sample in its place.
#[verifier::reject_recursive_types(O)]
pub struct UseAnimator<O, Animated: AnimatedValue<Output = O>> {
    function_and_ctx: (Animated, Context),
    schedule: Schedule,
    current: (u32, O),
}

impl<O, Animated: AnimatedValue<Output = O>> View for UseAnimator<O, Animated> {
    type V = Animation<O, Animated>;

    closed spec fn view(&self) -> Animation<O, Animated> {
        Animation {
            animated: self.function_and_ctx.0,
            ctx: self.function_and_ctx.1,
            schedule: self.schedule,
            index: self.current.0,
            value: self.current.1,
        }
    }
}

impl<O, Animated: AnimatedValue<Output = O>> UseAnimator<O, Animated> {
    #[verifier::type_invariant]
    spec fn well_formed(self) -> bool {
        self@.shows_sample()
    }

    /// Asks for a run in `direction` at the clock reading `now`.
    ///
    /// Returns whether a run has begun: the caller then asks for a frame and
    /// delivers ticks until [`UseAnimator::tick`] returns `false`. A run
    /// that is under way takes note of the direction and turns at its next
    /// tick, so that there is never more than one run.
    pub fn run(&mut self, direction: Direction, now: u64) -> (started: bool)
        ensures
            final(self)@ == (Animation {
                schedule: old(self)@.schedule.requested(
                    direction,
                    old(self)@.animated.spec_duration(),
                    now,
                ),
                ..old(self)@
            }),
            started == !old(self)@.schedule.running,
    {
        proof {
            use_type_invariant(&*self);
        }
        let total = self.function_and_ctx.0.duration();
        let (next, started) = self.schedule.run(direction, total, now);
        self.schedule = next;
        started
    }

    /// Advances the run to the clock reading `now` and shows the value
    /// there.
    ///
    /// Returns whether the run goes on, in which case the caller asks for
    /// another frame. A run that has reached an end of the timeline shows
    /// the value at that end and stops. Nothing changes where no run is
    /// under way.
    pub fn tick(&mut self, now: u64) -> (again: bool)
        ensures
            final(self)@.animated == old(self)@.animated,
            final(self)@.ctx == old(self)@.ctx,
            final(self)@.schedule == old(self)@.schedule.ticked(
                old(self)@.animated.spec_duration(),
                now,
            ),
            old(self)@.schedule.running ==> final(self)@.index == old(self)@.schedule.index_at(
                old(self)@.animated.spec_duration(),
                now,
            ),
            !old(self)@.schedule.running ==> final(self)@ == old(self)@,
            final(self)@.shows_sample(),
            again == final(self)@.schedule.running,
            old(self)@.schedule.running && old(self)@.schedule.offset_at(now) >= old(
                self,
            )@.animated.spec_duration() ==> !again && final(self)@.value == old(
                self,
            )@.animated.sample(old(self)@.animated.spec_duration()),
            old(self)@.schedule.running && old(self)@.schedule.offset_at(now) <= 0 ==> !again
                && final(self)@.value == old(self)@.animated.sample(0),
    {
        proof {
            use_type_invariant(&*self);
        }
        let total = self.function_and_ctx.0.duration();
        let (next, index) = self.schedule.tick(total, now);
        if let Some(index) = index {
            let value = self.function_and_ctx.0.calc(index);
            self.current = (index, value);
        }
        self.schedule = next;
        next.running
    }

    /// Ends the run, if one is under way. The value stays as it is, and
    /// ticks change nothing until the next run.
    pub fn cancel(&mut self)
        ensures
            final(self)@ == (Animation { schedule: old(self)@.schedule.cancelled(), ..old(self)@ }),
    {
        proof {
            use_type_invariant(&*self);
        }
        self.schedule = self.schedule.cancel();
    }

    /// The value that is shown: the timeline's value at the time index that
    /// was sampled last.
    pub fn value(&self) -> (value: &O)
        ensures
            *value == self@.value,
            self@.shows_sample(),
    {
        proof {
            use_type_invariant(self);
        }
        &self.current.1
    }

    /// Whether a run is under way.
    pub fn is_running(&self) -> (running: bool)
        ensures
            running == self@.schedule.running,
    {
        self.schedule.running
    }
}

/// Makes the scheduler of `animated` at the clock reading `now`.
///
/// It shows the value at the end of the timeline from which the starting
/// direction leads away. Where `ctx` asks for it, a run in that direction has
/// begun, and the caller delivers ticks.
pub fn use_animation<O, Animated: AnimatedValue<Output = O>>(
    animated: Animated,
    ctx: Context,
    now: u64,
) -> (animator: UseAnimator<O, Animated>)
    ensures
        animator@.animated == animated,
        animator@.ctx == ctx,
        animator@.schedule == (Schedule {
            running: ctx.auto_start,
            ..Schedule::resting(ctx.starting_direction, animated.spec_duration(), now)
        }),
        animator@.index == starting_index(ctx.starting_direction, animated.spec_duration()),
        animator@.shows_sample(),
{
    let total = animated.duration();
    let time: u32 = match ctx.starting_direction {
        Direction::Forward => 0,
        Direction::Backward => total,
    };
    let value = animated.calc(time);
    let mut animator = UseAnimator {
        function_and_ctx: (animated, ctx),
        schedule: Schedule::new(ctx.starting_direction, total, now),
        current: (time, value),
    };
    if ctx.auto_start {
        animator.run(ctx.starting_direction, now);
    }
    animator
}

} // verus!
