//! A cooperative in-process task scheduler.
//!
//! Tasks carry a priority and a cadence (run once, or repeat on a fixed
//! interval in milliseconds). The scheduler drains ready tasks in priority
//! order, re-admits periodic tasks once their interval has elapsed, and idles
//! over a simulated clock when nothing is ready. The scheduling loop, the
//! priority queue and the eligibility policy are fully verified; callers
//! supply the executable actions and drive the loop with a monotone clock.

pub mod task;
pub mod queue;
pub mod model;
pub mod scheduler;
pub mod priority_scheduler;
pub mod laws;
