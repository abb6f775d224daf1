use easer::functions::{Easing as Curves, Linear};
use tween_engine::{AnimatedValue, Easable, Easing, SegmentCompositor};

type Curve = fn(f32, f32, f32, f32) -> f32;

/// A number that moves along a curve.
#[derive(Clone, Copy, Debug, PartialEq)]
struct Scalar(f32);

impl Easable<Curve> for Scalar {
    type Output = f32;

    fn eased(&self, to: &Self, time: u32, duration: u32, function: &Easing<Curve>) -> f32 {
        self.ease(to, time, duration, function)
    }

    fn ease(&self, to: &Self, time: u32, duration: u32, function: &Easing<Curve>) -> f32 {
        match function {
            Easing::Constant => self.0,
            Easing::Function(curve) => curve(time as f32, self.0, to.0 - self.0, duration as f32),
        }
    }
}

/// What a segment was asked for: the endpoints, the time and the duration.
#[derive(Clone, Copy, Debug, PartialEq)]
struct Probe(u32);

#[derive(Clone, Copy, Debug, PartialEq)]
struct Asked {
    from: u32,
    to: u32,
    time: u32,
    duration: u32,
    held: bool,
}

impl Easable<()> for Probe {
    type Output = Asked;

    fn eased(&self, to: &Self, time: u32, duration: u32, function: &Easing<()>) -> Asked {
        self.ease(to, time, duration, function)
    }

    fn ease(&self, to: &Self, time: u32, duration: u32, function: &Easing<()>) -> Asked {
        Asked {
            from: self.0,
            to: to.0,
            time,
            duration,
            held: matches!(function, Easing::Constant),
        }
    }
}

fn linear() -> Curve {
    <Linear as Curves<f32>>::ease_in_out
}

fn asked(from: u32, to: u32, time: u32, duration: u32, held: bool) -> Asked {
    Asked { from, to, time, duration, held }
}

#[test]
fn one_segment_is_sampled_along_its_curve() {
    let timeline = SegmentCompositor::new(Scalar(0.0), Scalar(10.0), 1000, linear());
    assert_eq!(timeline.duration(), 1000);
    assert_eq!(timeline.calc(0), 0.0);
    assert_eq!(timeline.calc(250), 2.5);
    assert_eq!(timeline.calc(500), 5.0);
    assert_eq!(timeline.calc(1000), 10.0);
}

#[test]
fn a_segment_starts_and_ends_at_its_endpoints() {
    for (start, end, duration) in [(0.0f32, 10.0f32, 1000u32), (-4.0, 4.0, 7), (3.5, 3.5, 1), (100.0, 0.0, 60)] {
        let timeline = SegmentCompositor::new(Scalar(start), Scalar(end), duration, linear());
        assert_eq!(timeline.calc(0), start);
        assert_eq!(timeline.calc(duration), end);
    }
}

#[test]
fn duration_is_the_sum_of_the_segments() {
    let timeline = SegmentCompositor::new(Probe(0), Probe(1), 100, ());
    assert_eq!(timeline.duration(), 100);
    let timeline = timeline.add_segment(Probe(1), Probe(2), 250, ());
    assert_eq!(timeline.duration(), 350);
    let timeline = timeline.add_constant_segment(Probe(2), 0);
    assert_eq!(timeline.duration(), 350);
    let timeline = timeline.add_constant_segment(Probe(2), 50);
    assert_eq!(timeline.duration(), 400);
    let timeline = timeline.add_segment(Probe(2), Probe(0), u32::MAX - 400, ());
    assert_eq!(timeline.duration(), u32::MAX);
}

#[test]
fn sampling_twice_gives_the_same_value() {
    let timeline = SegmentCompositor::new(Scalar(1.0), Scalar(2.0), 300, linear())
        .add_constant_segment(Scalar(2.0), 100)
        .add_segment(Scalar(2.0), Scalar(-7.0), 900, linear());
    for index in [0u32, 1, 299, 300, 301, 400, 401, 850, 1300] {
        assert_eq!(timeline.calc(index), timeline.calc(index));
    }
}

#[test]
fn each_segment_is_asked_for_the_time_since_it_began() {
    let timeline = SegmentCompositor::new(Probe(0), Probe(1), 100, ())
        .add_segment(Probe(1), Probe(2), 200, ())
        .add_constant_segment(Probe(9), 50);
    assert_eq!(timeline.calc(0), asked(0, 1, 0, 100, false));
    assert_eq!(timeline.calc(1), asked(0, 1, 1, 100, false));
    assert_eq!(timeline.calc(99), asked(0, 1, 99, 100, false));
    assert_eq!(timeline.calc(101), asked(1, 2, 1, 200, false));
    assert_eq!(timeline.calc(250), asked(1, 2, 150, 200, false));
    assert_eq!(timeline.calc(301), asked(9, 9, 1, 50, true));
    assert_eq!(timeline.calc(350), asked(9, 9, 50, 50, true));
}

#[test]
fn a_shared_boundary_falls_to_the_earlier_segment() {
    let timeline = SegmentCompositor::new(Probe(0), Probe(1), 100, ())
        .add_segment(Probe(1), Probe(2), 200, ())
        .add_constant_segment(Probe(9), 50);
    assert_eq!(timeline.calc(100), asked(0, 1, 100, 100, false));
    assert_eq!(timeline.calc(300), asked(1, 2, 200, 200, false));
}

#[test]
fn a_segment_without_duration_in_the_middle_owns_no_time() {
    let timeline = SegmentCompositor::new(Probe(0), Probe(1), 100, ())
        .add_constant_segment(Probe(5), 0)
        .add_segment(Probe(1), Probe(2), 100, ());
    assert_eq!(timeline.duration(), 200);
    assert_eq!(timeline.calc(100), asked(0, 1, 100, 100, false));
    assert_eq!(timeline.calc(101), asked(1, 2, 1, 100, false));
    assert_eq!(timeline.calc(200), asked(1, 2, 100, 100, false));
}

#[test]
fn a_first_segment_without_duration_owns_time_zero() {
    let timeline = SegmentCompositor::new(Probe(3), Probe(4), 0, ());
    assert_eq!(timeline.duration(), 0);
    assert_eq!(timeline.calc(0), asked(3, 4, 0, 0, false));
    let timeline = timeline.add_segment(Probe(4), Probe(5), 10, ());
    assert_eq!(timeline.calc(0), asked(3, 4, 0, 0, false));
    assert_eq!(timeline.calc(1), asked(4, 5, 1, 10, false));
}

#[test]
fn a_trailing_segment_without_duration_leaves_the_end_to_the_one_before() {
    let timeline = SegmentCompositor::new(Probe(0), Probe(1), 100, ()).add_constant_segment(Probe(7), 0);
    assert_eq!(timeline.calc(100), asked(0, 1, 100, 100, false));
}

#[test]
fn a_constant_segment_holds_its_value() {
    let timeline = SegmentCompositor::new(Scalar(0.0), Scalar(8.0), 80, linear())
        .add_constant_segment(Scalar(8.0), 40)
        .add_segment(Scalar(8.0), Scalar(0.0), 80, linear());
    for index in 81..=120 {
        assert_eq!(timeline.calc(index), 8.0);
    }
    assert_eq!(timeline.calc(40), 4.0);
    assert_eq!(timeline.calc(160), 4.0);
    assert_eq!(timeline.calc(200), 0.0);
}

#[test]
fn appending_keeps_the_earlier_samples() {
    let before: Vec<f32> = {
        let timeline = SegmentCompositor::new(Scalar(0.0), Scalar(1.0), 10, linear())
            .add_constant_segment(Scalar(1.0), 5);
        (0..=15).map(|index| timeline.calc(index)).collect()
    };
    let longer = SegmentCompositor::new(Scalar(0.0), Scalar(1.0), 10, linear())
        .add_constant_segment(Scalar(1.0), 5)
        .add_segment(Scalar(50.0), Scalar(60.0), 20, linear());
    let after: Vec<f32> = (0..=15).map(|index| longer.calc(index)).collect();
    assert_eq!(before, after);
    assert_eq!(longer.calc(16), 50.5);
}

#[test]
fn a_clone_is_another_timeline_of_the_same_segments() {
    let timeline = SegmentCompositor::new(Scalar(0.0), Scalar(8.0), 80, linear())
        .add_constant_segment(Scalar(8.0), 40);
    let copy = timeline.clone();
    assert!(copy == timeline);
    assert_eq!(copy.duration(), 120);
    for index in [0u32, 40, 80, 81, 120] {
        assert_eq!(copy.calc(index), timeline.calc(index));
    }
    let longer = copy.add_constant_segment(Scalar(1.0), 5);
    assert!(longer != timeline);
    assert_eq!(timeline.duration(), 120);
    assert_eq!(longer.duration(), 125);
}

#[test]
fn an_easing_is_cloned_as_the_same_kind_of_curve() {
    let held: Easing<Curve> = Easing::Constant;
    assert_eq!(held.clone(), Easing::Constant);
    let curve: Easing<Curve> = Easing::Function(linear());
    match curve.clone() {
        Easing::Function(function) => assert_eq!(function(1.0, 2.0, 3.0, 4.0), 2.75),
        Easing::Constant => panic!("a curve was cloned as a hold"),
    }
}
