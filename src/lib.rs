//! Named timers for closures, with a hardware tick-counter calibrator.

pub mod clock;
pub mod names;
pub mod stopwatch;
pub mod timers;
pub mod tsc;
