//! Timelines: ordered segments and the sampling of a time index.

use vstd::prelude::*;
use crate::easing::{easing_cloned, Easable, Easing};

verus! {

/// One interval of a timeline: a move from `start` to `end` that takes
/// `duration` milliseconds and follows `function`.
pub struct Segment<T, F> {
    pub start: T,
    pub end: T,
    pub duration: u32,
    pub function: Easing<F>,
}

/// Sum of the durations of `segments`.
pub open spec fn total_duration<T, F>(segments: Seq<Segment<T, F>>) -> nat
    decreases segments.len(),
{
    if segments.len() == 0 {
        0
    } else {
        total_duration(segments.drop_last()) + segments.last().duration as nat
    }
}

/// The time at which segment `k` begins: the durations of the segments in
/// front of it, added up.
pub open spec fn elapsed_before<T, F>(segments: Seq<Segment<T, F>>, k: int) -> nat {
    total_duration(segments.take(k))
}

/// Whether time `index` falls to segment `k`.
///
/// Segment `k` covers the times after its beginning up to and including its
/// end. Time zero, which no segment would cover by that rule, falls to the
/// first segment.
pub open spec fn owns<T, F>(segments: Seq<Segment<T, F>>, k: int, index: int) -> bool {
    &&& 0 <= k < segments.len()
    &&& elapsed_before(segments, k) < index || (k == 0 && index == 0)
    &&& index <= elapsed_before(segments, k) + segments[k].duration
}

/// The segment to which time `index` falls.
pub open spec fn owner<T, F>(segments: Seq<Segment<T, F>>, index: int) -> int {
    choose|k: int| owns(segments, k, index)
}

/// The value of a timeline made of `segments` at time `index`: the owning
/// segment, eased at the time that has passed since it began.
pub open spec fn sample_at<T: Easable<F>, F>(segments: Seq<Segment<T, F>>, index: int) -> T::Output {
    let k = owner(segments, index);
    let segment = segments[k];
    segment.start.eased(
        &segment.end,
        (index - elapsed_before(segments, k)) as u32,
        segment.duration,
        &segment.function,
    )
}

/// Whether `copy` may be what cloning `segment` gives: as long as `segment`,
/// with clones of its endpoints and of its curve.
pub open spec fn segment_cloned<T: Clone, F: Clone>(
    segment: Segment<T, F>,
    copy: Segment<T, F>,
) -> bool {
    &&& copy.duration == segment.duration
    &&& cloned(segment.start, copy.start)
    &&& cloned(segment.end, copy.end)
    &&& easing_cloned(segment.function, copy.function)
}

/// Appending a segment adds its duration to the total.
pub proof fn lemma_total_push<T, F>(segments: Seq<Segment<T, F>>, segment: Segment<T, F>)
    ensures
        total_duration(segments.push(segment)) == total_duration(segments) + segment.duration,
{
    assert(segments.push(segment).drop_last() =~= segments);
}

/// Each segment begins where the one before it ends, and the last one ends at
/// the total duration.
pub proof fn lemma_elapsed_step<T, F>(segments: Seq<Segment<T, F>>, k: int)
    requires
        0 <= k < segments.len(),
    ensures
        elapsed_before(segments, 0) == 0,
        elapsed_before(segments, k + 1) == elapsed_before(segments, k) + segments[k].duration,
        elapsed_before(segments, segments.len() as int) == total_duration(segments),
{
    assert(segments.take(k + 1).drop_last() =~= segments.take(k));
    assert(segments.take(segments.len() as int) =~= segments);
}

/// Later segments begin no earlier than earlier ones, and none begins after
/// the total duration.
pub proof fn lemma_elapsed_monotonic<T, F>(segments: Seq<Segment<T, F>>, j: int, k: int)
    requires
        0 <= j <= k <= segments.len(),
    ensures
        elapsed_before(segments, j) <= elapsed_before(segments, k) <= total_duration(segments),
    decreases segments.len() - j,
{
    if segments.len() > 0 {
        lemma_elapsed_step(segments, 0);
    } else {
        assert(segments.take(0) =~= segments);
    }
    if j < k {
        lemma_elapsed_step(segments, j);
        lemma_elapsed_monotonic(segments, j + 1, k);
    } else if k < segments.len() {
        lemma_elapsed_step(segments, k);
        lemma_elapsed_monotonic(segments, k + 1, segments.len() as int);
    }
}

/// A timeline has no gap and no overlap: every time from zero to the total
/// duration falls to exactly one segment.
pub proof fn lemma_owner_exists_once<T, F>(segments: Seq<Segment<T, F>>, index: int)
    requires
        segments.len() >= 1,
        0 <= index <= total_duration(segments),
    ensures
        owns(segments, owner(segments, index), index),
        forall|k: int| owns(segments, k, index) ==> k == owner(segments, index),
{
    lemma_some_owner(segments, index, 0);
    let found = owner(segments, index);
    assert forall|k: int| owns(segments, k, index) implies k == found by {
        if k < found {
            lemma_elapsed_step(segments, k);
            lemma_elapsed_monotonic(segments, k + 1, found);
        } else if found < k {
            lemma_elapsed_step(segments, found);
            lemma_elapsed_monotonic(segments, found + 1, k);
        }
    }
}

/// Scanning from segment `from`, whose beginning lies before `index`, finds
/// a segment to which `index` falls.
proof fn lemma_some_owner<T, F>(segments: Seq<Segment<T, F>>, index: int, from: int)
    requires
        0 <= from < segments.len(),
        0 <= index <= total_duration(segments),
        elapsed_before(segments, from) < index || from == 0,
    ensures
        exists|k: int| owns(segments, k, index),
    decreases segments.len() - from,
{
    lemma_elapsed_step(segments, from);
    if index <= elapsed_before(segments, from) + segments[from].duration {
        if from == 0 && index != 0 {
            assert(elapsed_before(segments, 0) < index);
        }
        assert(owns(segments, from, index));
    } else {
        lemma_some_owner(segments, index, from + 1);
    }
}

/// Something that has a value at every time index from zero to its duration.
pub trait AnimatedValue {
    type Output;

    /// Total length in milliseconds.
    spec fn spec_duration(&self) -> u32;

    /// The value at time `index`.
    spec fn sample(&self, index: u32) -> Self::Output;

    /// The total length in milliseconds.
    fn duration(&self) -> (d: u32)
        ensures
            d == self.spec_duration(),
    ;

    /// The value at time `index`, which must not lie beyond the duration.
    fn calc(&self, index: u32) -> (out: Self::Output)
        requires
            index <= self.spec_duration(),
        ensures
            out == self.sample(index),
    ;
}

/// A segment as it is stored. A hold keeps its one value once.
#[derive(PartialEq)]
enum Slot<T, F> {
    Hold { value: T, duration: u32 },
    Move { start: T, end: T, duration: u32, function: Easing<F> },
}

impl<T, F> Slot<T, F> {
    spec fn segment(self) -> Segment<T, F> {
        match self {
            Slot::Hold { value, duration } => Segment {
                start: value,
                end: value,
                duration,
                function: Easing::Constant,
            },
            Slot::Move { start, end, duration, function } => Segment {
                start,
                end,
                duration,
                function,
            },
        }
    }

    fn duration(&self) -> (d: u32)
        ensures
            d == self.segment().duration,
    {
        match self {
            Slot::Hold { duration, .. } => *duration,
            Slot::Move { duration, .. } => *duration,
        }
    }
}

impl<T: Clone, F: Clone> Slot<T, F> {
    fn duplicate(&self) -> (copy: Self)
        ensures
            segment_cloned(self.segment(), copy.segment()),
    {
        match self {
            Slot::Hold { value, duration } => Slot::Hold {
                value: value.clone(),
                duration: *duration,
            },
            Slot::Move { start, end, duration, function } => Slot::Move {
                start: start.clone(),
                end: end.clone(),
                duration: *duration,
                function: function.clone(),
            },
        }
    }
}

impl<T: Easable<F>, F> Slot<T, F> {
    fn ease(&self, time: u32) -> (out: T::Output)
        ensures
            out == self.segment().start.eased(
                &self.segment().end,
                time,
                self.segment().duration,
                &self.segment().function,
            ),
    {
        match self {
            Slot::Hold { value, duration } => value.ease(value, time, *duration, &Easing::Constant),
            Slot::Move { start, end, duration, function } => start.ease(
                end,
                time,
                *duration,
                function,
            ),
        }
    }
}

/// A timeline: one or more segments, played one after the other.
///
/// Its view is the sequence of its segments in the order in which they were
/// appended. The total duration always fits in a `u32`.
#[derive(PartialEq)]
pub struct SegmentCompositor<T, F> {
    segments: Vec<Slot<T, F>>,
    total_duration: u32,
}

impl<T, F> View for SegmentCompositor<T, F> {
    type V = Seq<Segment<T, F>>;

    closed spec fn view(&self) -> Seq<Segment<T, F>> {
        Seq::new(self.segments@.len(), |i: int| self.segments@[i].segment())
    }
}

impl<T, F> SegmentCompositor<T, F> {
    #[verifier::type_invariant]
    spec fn well_formed(self) -> bool {
        &&& self.segments@.len() >= 1
        &&& self.total_duration as nat == total_duration(self@)
    }

    /// A timeline of one segment.
    pub fn new(start: T, end: T, duration: u32, function: F) -> (timeline: Self)
        ensures
            timeline@ == seq![
                (Segment { start, end, duration, function: Easing::Function(function) }),
            ],
            total_duration(timeline@) == duration,
    {
        let mut segments = Vec::new();
        segments.push(Slot::Move { start, end, duration, function: Easing::Function(function) });
        proof {
            let appended = Segment { start, end, duration, function: Easing::Function(function) };
            assert(Seq::new(segments@.len(), |i: int| segments@[i].segment()) =~= seq![appended]);
            assert(seq![appended] =~= Seq::empty().push(appended));
            lemma_total_push(Seq::empty(), appended);
        }
        SegmentCompositor { segments, total_duration: duration }
    }

    /// The timeline with one more segment at its end.
    pub fn add_segment(self, start: T, end: T, duration: u32, function: F) -> (timeline: Self)
        requires
            total_duration(self@) + duration <= u32::MAX,
        ensures
            timeline@ == self@.push(
                Segment { start, end, duration, function: Easing::Function(function) },
            ),
            total_duration(timeline@) == total_duration(self@) + duration,
    {
        self.append(Slot::Move { start, end, duration, function: Easing::Function(function) })
    }

    /// The timeline with one more segment at its end, which holds `value`
    /// for `duration` milliseconds.
    pub fn add_constant_segment(self, value: T, duration: u32) -> (timeline: Self)
        requires
            total_duration(self@) + duration <= u32::MAX,
        ensures
            timeline@ == self@.push(
                Segment { start: value, end: value, duration, function: Easing::Constant },
            ),
            total_duration(timeline@) == total_duration(self@) + duration,
    {
        self.append(Slot::Hold { value, duration })
    }

    fn append(self, slot: Slot<T, F>) -> (timeline: Self)
        requires
            total_duration(self@) + slot.segment().duration <= u32::MAX,
        ensures
            timeline@ == self@.push(slot.segment()),
            total_duration(timeline@) == total_duration(self@) + slot.segment().duration,
    {
        proof {
            use_type_invariant(&self);
        }
        let ghost before = self@;
        let added = slot.duration();
        let SegmentCompositor { mut segments, total_duration } = self;
        segments.push(slot);
        proof {
            assert(Seq::new(segments@.len(), |i: int| segments@[i].segment()) =~= before.push(
                slot.segment(),
            ));
            lemma_total_push(before, slot.segment());
        }
        SegmentCompositor { segments, total_duration: total_duration + added }
    }
}

/// Segments of the same durations add up to the same total.
proof fn lemma_total_of_equal_durations<T, F>(a: Seq<Segment<T, F>>, b: Seq<Segment<T, F>>)
    requires
        a.len() == b.len(),
        forall|k: int| 0 <= k < a.len() ==> a[k].duration == b[k].duration,
    ensures
        total_duration(a) == total_duration(b),
    decreases a.len(),
{
    if a.len() > 0 {
        lemma_total_of_equal_durations(a.drop_last(), b.drop_last());
    }
}

impl<T: Clone, F: Clone> Clone for SegmentCompositor<T, F> {
    /// A timeline of as many segments, each a clone of the one in its
    /// place.
    fn clone(&self) -> (copy: Self)
        ensures
            copy@.len() == self@.len(),
            forall|k: int| 0 <= k < self@.len() ==> segment_cloned(self@[k], #[trigger] copy@[k]),
    {
        proof {
            use_type_invariant(self);
        }
        let mut segments: Vec<Slot<T, F>> = Vec::new();
        let mut k: usize = 0;
        while k < self.segments.len()
            invariant
                0 <= k <= self.segments@.len(),
                segments@.len() == k,
                forall|i: int|
                    0 <= i < k ==> segment_cloned(
                        self.segments@[i].segment(),
                        #[trigger] segments@[i].segment(),
                    ),
            decreases self.segments@.len() - k,
        {
            segments.push(self.segments[k].duplicate());
            k += 1;
        }
        proof {
            lemma_total_of_equal_durations(
                self@,
                Seq::new(segments@.len(), |i: int| segments@[i].segment()),
            );
        }
        SegmentCompositor { segments, total_duration: self.total_duration }
    }
}

impl<T: Easable<F>, F> AnimatedValue for SegmentCompositor<T, F> {
    type Output = T::Output;

    open spec fn spec_duration(&self) -> u32 {
        total_duration(self@) as u32
    }

    open spec fn sample(&self, index: u32) -> T::Output {
        sample_at(self@, index as int)
    }

    /// The durations of the segments, added up.
    fn duration(&self) -> (d: u32)
        ensures
            d == total_duration(self@),
    {
        proof {
            use_type_invariant(self);
        }
        self.total_duration
    }

    /// The value at time `index`: that of the segment to which `index`
    /// falls.
    fn calc(&self, index: u32) -> (out: T::Output) {
        proof {
            use_type_invariant(self);
            lemma_elapsed_step(self@, 0);
        }
        let count: usize = self.segments.len();
        let mut accumulated: u32 = 0;
        let mut k: usize = 0;
        loop
            invariant
                self.well_formed(),
                index <= total_duration(self@),
                count == self.segments@.len(),
                0 <= k < count,
                accumulated == elapsed_before(self@, k as int),
                k == 0 || accumulated < index,
            decreases count - k,
        {
            let slot = &self.segments[k];
            let length = slot.duration();
            proof {
                lemma_elapsed_step(self@, k as int);
                lemma_elapsed_monotonic(self@, k + 1, self@.len() as int);
            }
            if index <= accumulated + length {
                proof {
                    assert(owns(self@, k as int, index as int));
                    lemma_owner_exists_once(self@, index as int);
                }
                return slot.ease(index - accumulated);
            }
            accumulated += length;
            k += 1;
        }
    }
}

/// Time zero is sampled at the very start of the first segment, and the
/// total duration at the very end of the segment to which it falls, which is
/// the last segment unless that one takes no time.
pub proof fn lemma_sample_at_ends<T: Easable<F>, F>(segments: Seq<Segment<T, F>>)
    requires
        segments.len() >= 1,
        total_duration(segments) <= u32::MAX,
    ensures
        sample_at(segments, 0) == segments[0].start.eased(
            &segments[0].end,
            0,
            segments[0].duration,
            &segments[0].function,
        ),
        ({
            let k = owner(segments, total_duration(segments) as int);
            &&& owns(segments, k, total_duration(segments) as int)
            &&& segments.last().duration > 0 ==> k == segments.len() - 1
            &&& sample_at(segments, total_duration(segments) as int) == segments[k].start.eased(
                &segments[k].end,
                segments[k].duration,
                segments[k].duration,
                &segments[k].function,
            )
        }),
{
    let total = total_duration(segments) as int;
    let last = segments.len() - 1;
    lemma_elapsed_step(segments, 0);
    lemma_elapsed_step(segments, last);
    lemma_owner_exists_once(segments, 0);
    lemma_owner_exists_once(segments, total);
    lemma_elapsed_monotonic(segments, 0, segments.len() as int);
    assert(owns(segments, 0, 0));
    let k = owner(segments, total);
    lemma_elapsed_step(segments, k);
    lemma_elapsed_monotonic(segments, k + 1, segments.len() as int);
    if segments.last().duration > 0 {
        assert(owns(segments, last, total));
    }
}

/// Appending a segment leaves the timeline as it was up to its old end.
pub proof fn lemma_appending_keeps_samples<T: Easable<F>, F>(
    segments: Seq<Segment<T, F>>,
    segment: Segment<T, F>,
    index: int,
)
    requires
        segments.len() >= 1,
        0 <= index <= total_duration(segments),
    ensures
        owner(segments.push(segment), index) == owner(segments, index),
        sample_at(segments.push(segment), index) == sample_at(segments, index),
{
    let longer = segments.push(segment);
    let k = owner(segments, index);
    lemma_owner_exists_once(segments, index);
    lemma_total_push(segments, segment);
    assert(longer.take(k) =~= segments.take(k));
    assert(owns(longer, k, index));
    lemma_owner_exists_once(longer, index);
}

/// Sampling a time index again gives the same value again: any two values
/// that `calc` may return for one time index are equal.
pub proof fn lemma_sampling_is_repeatable<Animated: AnimatedValue>(
    animated: Animated,
    index: u32,
    first: Animated::Output,
    second: Animated::Output,
)
    requires
        call_ensures(Animated::calc, (&animated, index), first),
        call_ensures(Animated::calc, (&animated, index), second),
    ensures
        first == second,
        first == animated.sample(index),
{
}

/// A timeline of one segment, whose curve gives the start value at time zero
/// and the end value at the end of the segment, is sampled as the start value
/// at time zero and as the end value at its duration.
pub proof fn lemma_boundaries_are_exact<T: Easable<F, Output = T>, F>(
    timeline: SegmentCompositor<T, F>,
    start: T,
    end: T,
    duration: u32,
    function: F,
)
    requires
        timeline@ == seq![(Segment { start, end, duration, function: Easing::Function(function) })],
        start.eased(&end, 0, duration, &Easing::Function(function)) == start,
        start.eased(&end, duration, duration, &Easing::Function(function)) == end,
    ensures
        timeline.spec_duration() == duration,
        timeline.sample(0) == start,
        timeline.sample(duration) == end,
{
    let segment = Segment { start, end, duration, function: Easing::Function(function) };
    assert(seq![segment] =~= Seq::empty().push(segment));
    lemma_total_push(Seq::empty(), segment);
    lemma_sample_at_ends(timeline@);
}

} // verus!
