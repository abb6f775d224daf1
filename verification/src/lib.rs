//! A segmented tween engine: timelines built from eased segments, sampled by
//! time index, and a scheduler that walks a timeline forwards or backwards as
//! the frame clock ticks.
//!
//! Time is counted in whole milliseconds. The values that move along a
//! timeline are opaque to this crate: anything that implements [`Easable`]
//! can be animated.

pub mod animator;
pub mod color;
pub mod context;
pub mod easing;
pub mod hsv;
pub mod schedule;
pub mod timeline;

pub use animator::{use_animation, Animation, UseAnimator};
pub use color::{ParseError, Rgba};
pub use context::{Context, Direction};
pub use easing::{Easable, Easing};
pub use hsv::Hsv;
pub use schedule::Schedule;
pub use timeline::{AnimatedValue, Segment, SegmentCompositor};
