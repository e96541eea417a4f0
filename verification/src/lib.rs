//! A sampling memory profiler core.
//!
//! The profiler observes allocation events, samples one in every N of them,
//! attributes each sampled event to the call stack that caused it, and keeps
//! per-stack statistics that can be ranked and rendered as text.

pub mod accounting;
pub mod callstack;
pub mod cell;
pub mod clock;
pub mod guard;
pub mod leap;
pub mod paged;
pub mod profiler;
pub mod ranking;
pub mod stats;
pub mod text;
pub mod trace;
pub mod tracker;

pub use crate::guard::testing_only_guarantee_next_sample;
pub use crate::profiler::reset_state_for_testing_only;
pub use crate::profiler::YingProfiler;
