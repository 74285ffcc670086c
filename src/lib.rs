//! Frame timing for a real-time simulation loop: per-frame and absolute time,
//! a fixed-timestep accumulator and a time-scale multiplier.

pub mod duration;
pub mod laws;
pub mod scale;
pub mod single;
pub mod time;

pub use duration::Duration;
pub use scale::TimeScale;
pub use time::Time;
