//! The run of an animation as a state machine over a millisecond clock.
//!
//! A run measures the time that has passed since an instant, and adds it to
//! or takes it from an anchor, which is the time index at which the run
//! stood at that instant. Whoever drives the machine reads the clock, hands
//! each reading to [`Schedule::tick`], publishes the sample that it asks for
//! and asks for another frame while the run lasts.

use vstd::prelude::*;
use crate::context::Direction;

verus! {

/// Where a run stands.
#[derive(Clone, Copy, PartialEq, Eq, Debug, Structural)]
pub struct Schedule {
    /// Whether a run is under way.
    pub running: bool,
    /// The direction that was last asked for.
    pub direction: Direction,
    /// The direction in which the run is stepping. It follows `direction`
    /// at the next tick.
    pub stepping: Direction,
    /// The time index from which the run measures.
    pub anchor: u32,
    /// The clock reading at which the run stood at `anchor`.
    pub since: u64,
}

/// The time index at which a run in `direction` begins on a timeline that is
/// `total` milliseconds long.
pub open spec fn starting_index(direction: Direction, total: u32) -> u32 {
    match direction {
        Direction::Forward => 0,
        Direction::Backward => total,
    }
}

/// The time that has passed from the reading `since` to the reading `now`. A
/// reading that lies before `since` counts as no time.
pub open spec fn elapsed_since(since: u64, now: u64) -> int {
    if now >= since {
        now - since
    } else {
        0
    }
}

/// `offset`, held within a timeline that is `total` milliseconds long.
pub open spec fn clamped(offset: int, total: u32) -> u32 {
    if offset <= 0 {
        0
    } else if offset >= total {
        total
    } else {
        offset as u32
    }
}

impl Schedule {
    /// A schedule that is at rest where a run in `direction` would begin.
    pub open spec fn resting(direction: Direction, total: u32, now: u64) -> Schedule {
        Schedule {
            running: false,
            direction,
            stepping: direction,
            anchor: starting_index(direction, total),
            since: now,
        }
    }

    /// The time index that the run has reached at the reading `now`, in the
    /// direction in which it is stepping, before it is held within the
    /// timeline.
    pub open spec fn offset_at(self, now: u64) -> int {
        match self.stepping {
            Direction::Forward => self.anchor + elapsed_since(self.since, now),
            Direction::Backward => self.anchor - elapsed_since(self.since, now),
        }
    }

    /// Whether the run has reached an end of the timeline at the reading
    /// `now`. Either end counts, whatever the direction: a run that is ticked
    /// at the very reading at which it began stands at an end.
    pub open spec fn exhausted_at(self, total: u32, now: u64) -> bool {
        self.offset_at(now) <= 0 || self.offset_at(now) >= total
    }

    /// The time index to sample at the reading `now`.
    pub open spec fn index_at(self, total: u32, now: u64) -> u32 {
        clamped(self.offset_at(now), total)
    }

    /// The schedule after `direction` was asked for at the reading `now`.
    ///
    /// At rest, a run begins at the end of the timeline from which
    /// `direction` leads away. A run that is under way goes on, and only
    /// takes note of the direction.
    pub open spec fn requested(self, direction: Direction, total: u32, now: u64) -> Schedule {
        if self.running {
            Schedule { direction, ..self }
        } else {
            Schedule {
                running: true,
                direction,
                stepping: direction,
                anchor: starting_index(direction, total),
                since: now,
            }
        }
    }

    /// The schedule after a tick at the reading `now`.
    ///
    /// A run ends where it has reached an end of the timeline. Otherwise,
    /// where another direction was asked for, it turns: it measures anew
    /// from the time index that it has reached.
    pub open spec fn ticked(self, total: u32, now: u64) -> Schedule {
        if !self.running {
            self
        } else if self.exhausted_at(total, now) {
            Schedule { running: false, ..self }
        } else if self.stepping != self.direction {
            Schedule {
                stepping: self.direction,
                anchor: self.index_at(total, now),
                since: now,
                ..self
            }
        } else {
            self
        }
    }

    /// The schedule after its run was cancelled.
    pub open spec fn cancelled(self) -> Schedule {
        Schedule { running: false, ..self }
    }

    /// A schedule at rest where a run in `direction` would begin.
    pub fn new(direction: Direction, total: u32, now: u64) -> (schedule: Schedule)
        ensures
            schedule == Schedule::resting(direction, total, now),
    {
        let anchor: u32 = match direction {
            Direction::Forward => 0,
            Direction::Backward => total,
        };
        Schedule { running: false, direction, stepping: direction, anchor, since: now }
    }

    /// Asks for a run in `direction`. The second part of the result says
    /// whether a run has begun, so that ticks must now be delivered.
    pub fn run(self, direction: Direction, total: u32, now: u64) -> (next: (Schedule, bool))
        ensures
            next.0 == self.requested(direction, total, now),
            next.1 == !self.running,
    {
        if self.running {
            (Schedule { direction, ..self }, false)
        } else {
            let mut begun = Schedule::new(direction, total, now);
            begun.running = true;
            (begun, true)
        }
    }

    /// Advances the run to the reading `now`. The second part of the result
    /// is the time index to sample and publish, if a run is under way.
    pub fn tick(self, total: u32, now: u64) -> (next: (Schedule, Option<u32>))
        ensures
            next.0 == self.ticked(total, now),
            next.1 == if self.running {
                Some(self.index_at(total, now))
            } else {
                None
            },
    {
        if !self.running {
            return (self, None);
        }
        let elapsed: u64 = if now >= self.since {
            now - self.since
        } else {
            0
        };
        let reached: Option<u32> = match self.stepping {
            Direction::Forward => if self.anchor >= total || elapsed >= (total - self.anchor) as u64 {
                Some(total)
            } else if self.anchor == 0 && elapsed == 0 {
                Some(0)
            } else {
                None
            },
            Direction::Backward => if elapsed >= self.anchor as u64 {
                Some(0)
            } else if self.anchor - elapsed as u32 >= total {
                Some(total)
            } else {
                None
            },
        };
        match reached {
            Some(end) => (Schedule { running: false, ..self }, Some(end)),
            None => {
                let index: u32 = match self.stepping {
                    Direction::Forward => self.anchor + elapsed as u32,
                    Direction::Backward => self.anchor - elapsed as u32,
                };
                if self.stepping != self.direction {
                    (
                        Schedule { stepping: self.direction, anchor: index, since: now, ..self },
                        Some(index),
                    )
                } else {
                    (self, Some(index))
                }
            },
        }
    }

    /// Ends the run, if one is under way.
    pub fn cancel(self) -> (next: Schedule)
        ensures
            next == self.cancelled(),
    {
        Schedule { running: false, ..self }
    }
}

/// Asking a run for the direction that it already has changes nothing.
pub proof fn lemma_same_direction_changes_nothing(schedule: Schedule, total: u32, now: u64)
    requires
        schedule.running,
    ensures
        schedule.requested(schedule.direction, total, now) == schedule,
{
}

/// A run that has gone past the end of the timeline samples the end and
/// stops, and a run that has gone back past time zero samples time zero and
/// stops. Any other tick samples the time index that the run has reached, and
/// the run goes on.
pub proof fn lemma_run_stops_at_the_ends(schedule: Schedule, total: u32, now: u64)
    requires
        schedule.running,
    ensures
        schedule.offset_at(now) >= total ==> schedule.index_at(total, now) == total
            && !schedule.ticked(total, now).running,
        schedule.offset_at(now) <= 0 ==> schedule.index_at(total, now) == 0 && !schedule.ticked(
            total,
            now,
        ).running,
        0 < schedule.offset_at(now) < total ==> schedule.index_at(total, now)
            == schedule.offset_at(now) && schedule.ticked(total, now).running,
{
}

/// Nothing is sampled after a run was cancelled: ticks leave the schedule as
/// it is until a run is asked for.
pub proof fn lemma_cancelled_run_stays(schedule: Schedule, total: u32, now: u64)
    ensures
        !schedule.cancelled().running,
        schedule.cancelled().ticked(total, now) == schedule.cancelled(),
{
}

/// From one tick to the next, the time index that is sampled moves by no
/// more than the time that has passed, whatever direction is asked for in
/// between: a run that turns does not jump to the other end of the timeline.
pub proof fn lemma_motion_is_continuous(
    schedule: Schedule,
    total: u32,
    first: u64,
    direction: Direction,
    asked: u64,
    second: u64,
)
    requires
        schedule.running,
        schedule.ticked(total, first).running,
        first <= second,
    ensures
        ({
            let turned = schedule.ticked(total, first).requested(direction, total, asked);
            let before = schedule.index_at(total, first);
            let after = turned.index_at(total, second);
            before - (second - first) <= after <= before + (second - first)
        }),
{
}

/// A run that turns goes on from the time index that it had reached: after
/// the tick at which it turns, it moves from that index in the direction
/// that was asked for, by the time that passes from that tick on.
pub proof fn lemma_turn_resumes_in_place(schedule: Schedule, total: u32, first: u64, second: u64)
    requires
        schedule.running,
        schedule.stepping != schedule.direction,
        schedule.ticked(total, first).running,
        first <= second,
    ensures
        ({
            let turned = schedule.ticked(total, first);
            let reached = schedule.index_at(total, first);
            &&& turned.stepping == schedule.direction
            &&& turned.index_at(total, first) == reached
            &&& turned.offset_at(second) == match schedule.direction {
                Direction::Forward => reached + (second - first),
                Direction::Backward => reached - (second - first),
            }
        }),
{
}

} // verus!
