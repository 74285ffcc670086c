//! The frame clock: per-frame and absolute time, a fixed-timestep
//! accumulator and a time-scale multiplier.

use vstd::prelude::*;
use crate::duration::{Duration, MAX_NANOS};
use crate::scale::{TimeScale, ONE_BITS, scaled_nanos, scale_fits, is_valid_scale_bits};

verus! {

/// The default fixed-update interval, 1/60 s truncated to whole nanoseconds.
pub const DEFAULT_FIXED_NANOS: u128 = 16_666_666;

/// A clock's state as plain numbers: durations in nanoseconds, the time scale
/// as its single-precision bit pattern.
pub ghost struct TimeState {
    pub delta_time: nat,
    pub delta_real_time: nat,
    pub fixed_time: nat,
    pub fixed_time_accumulator: nat,
    pub frame_number: nat,
    pub absolute_time: nat,
    pub absolute_real_time: nat,
    pub time_scale: u32,
}

impl TimeState {
    /// A freshly created clock: everything zero, a fixed interval of 1/60 s
    /// and a scale of 1.
    pub open spec fn initial() -> TimeState {
        TimeState {
            delta_time: 0,
            delta_real_time: 0,
            fixed_time: DEFAULT_FIXED_NANOS as nat,
            fixed_time_accumulator: 0,
            frame_number: 0,
            absolute_time: 0,
            absolute_real_time: 0,
            time_scale: ONE_BITS,
        }
    }

    /// The state after a frame that took `d` nanoseconds of real time.
    pub open spec fn advanced(self, d: nat) -> TimeState {
        let scaled = scaled_nanos(d, self.time_scale);
        TimeState {
            delta_time: scaled,
            delta_real_time: d,
            frame_number: self.frame_number + 1,
            absolute_time: self.absolute_time + scaled,
            absolute_real_time: self.absolute_real_time + d,
            fixed_time_accumulator: self.fixed_time_accumulator + d,
            ..self
        }
    }

    /// Advancing by `d` keeps every counter within its representable range.
    pub open spec fn can_advance(self, d: nat) -> bool {
        &&& self.frame_number < u64::MAX
        &&& scale_fits(d, self.time_scale)
        &&& self.absolute_time + scaled_nanos(d, self.time_scale) <= MAX_NANOS
        &&& self.absolute_real_time + d <= MAX_NANOS
    }

    /// At least one whole fixed interval is banked in the accumulator.
    pub open spec fn fixed_step_due(self) -> bool {
        self.fixed_time_accumulator >= self.fixed_time
    }

    /// The state after one attempt to take a fixed step: one interval leaves
    /// the accumulator where one is due, and nothing changes otherwise.
    pub open spec fn stepped(self) -> TimeState {
        if self.fixed_step_due() {
            TimeState {
                fixed_time_accumulator: (self.fixed_time_accumulator - self.fixed_time) as nat,
                ..self
            }
        } else {
            self
        }
    }

    /// The state with the fixed interval replaced by `f` nanoseconds.
    pub open spec fn with_fixed_time(self, f: nat) -> TimeState {
        TimeState { fixed_time: f, ..self }
    }

    /// The state with the scale replaced by the one that `bits` encodes.
    pub open spec fn with_time_scale(self, bits: u32) -> TimeState {
        TimeState { time_scale: bits, ..self }
    }
}

/// Frame timing values.
#[derive(Clone, Copy, Debug, PartialEq, Eq, Structural)]
pub struct Time {
    /// Time elapsed since the last frame, scaled.
    delta_time: Duration,
    /// Time elapsed since the last frame, ignoring the scale.
    delta_real_time: Duration,
    /// Interval between fixed updates.
    fixed_time: Duration,
    /// Number of frames advanced so far.
    frame_number: u64,
    /// Time elapsed since creation, ignoring the scale.
    absolute_real_time: Duration,
    /// Time elapsed since creation, scaled.
    absolute_time: Duration,
    /// Multiplier applied to each frame's duration.
    time_scale: TimeScale,
    /// Real time banked toward the next fixed updates.
    fixed_time_accumulator: Duration,
}

impl View for Time {
    type V = TimeState;

    closed spec fn view(&self) -> TimeState {
        TimeState {
            delta_time: self.delta_time@,
            delta_real_time: self.delta_real_time@,
            fixed_time: self.fixed_time@,
            fixed_time_accumulator: self.fixed_time_accumulator@,
            frame_number: self.frame_number as nat,
            absolute_time: self.absolute_time@,
            absolute_real_time: self.absolute_real_time@,
            time_scale: self.time_scale@,
        }
    }
}

impl Time {
    /// Banked time is real time that has passed and not yet been stepped off.
    #[verifier::type_invariant]
    spec fn banked_within_elapsed(self) -> bool {
        self.fixed_time_accumulator@ <= self.absolute_real_time@
    }

    /// The scaled time between the last two frames.
    pub fn delta_time(&self) -> (r: Duration)
        ensures
            r@ == self@.delta_time,
    {
        self.delta_time
    }

    /// The real time between the last two frames, ignoring the scale.
    pub fn delta_real_time(&self) -> (r: Duration)
        ensures
            r@ == self@.delta_real_time,
    {
        self.delta_real_time
    }

    /// The interval between fixed updates.
    pub fn fixed_time(&self) -> (r: Duration)
        ensures
            r@ == self@.fixed_time,
    {
        self.fixed_time
    }

    /// The number of frames advanced so far; the first frame is number 1.
    pub fn frame_number(&self) -> (r: u64)
        ensures
            r == self@.frame_number,
    {
        self.frame_number
    }

    /// The scaled time since creation.
    pub fn absolute_time(&self) -> (r: Duration)
        ensures
            r@ == self@.absolute_time,
    {
        self.absolute_time
    }

    /// The real time since creation, ignoring the scale.
    pub fn absolute_real_time(&self) -> (r: Duration)
        ensures
            r@ == self@.absolute_real_time,
    {
        self.absolute_real_time
    }

    /// The current time-scale multiplier.
    pub fn time_scale(&self) -> (r: TimeScale)
        ensures
            r@ == self@.time_scale,
    {
        self.time_scale
    }

    /// Records a frame that took `time_diff` of real time: sets both deltas,
    /// counts the frame and adds to the absolute times and the accumulator.
    /// Call it once per frame, before draining fixed updates.
    pub fn advance_frame(&mut self, time_diff: Duration)
        requires
            old(self)@.can_advance(time_diff@),
        ensures
            final(self)@ == old(self)@.advanced(time_diff@),
    {
        proof {
            use_type_invariant(&*self);
        }
        let scaled = self.time_scale.scale(time_diff);
        self.delta_time = scaled;
        self.delta_real_time = time_diff;
        self.frame_number = self.frame_number + 1;
        self.absolute_time = self.absolute_time.checked_add(scaled).unwrap();
        self.absolute_real_time = self.absolute_real_time.checked_add(time_diff).unwrap();
        self.fixed_time_accumulator = self.fixed_time_accumulator.checked_add(time_diff).unwrap();
    }

    /// Replaces the fixed-update interval. Any value is taken; with a zero
    /// interval `step_fixed_update` never returns false.
    pub fn set_fixed_time(&mut self, time: Duration)
        ensures
            final(self)@ == old(self)@.with_fixed_time(time@),
    {
        proof {
            use_type_invariant(&*self);
        }
        self.fixed_time = time;
    }

    /// Replaces the time-scale multiplier, which applies from the next frame on.
    pub fn set_time_scale(&mut self, multiplier: TimeScale)
        ensures
            final(self)@ == old(self)@.with_time_scale(multiplier@),
            is_valid_scale_bits(final(self)@.time_scale),
    {
        proof {
            use_type_invariant(&*self);
        }
        // Reading the pattern brings the scale's own invariant into view.
        let _bits = multiplier.to_f32_bits();
        self.time_scale = multiplier;
    }

    /// Takes one fixed interval out of the accumulator and returns true where
    /// at least one is banked; returns false and changes nothing otherwise.
    pub fn step_fixed_update(&mut self) -> (r: bool)
        ensures
            r == old(self)@.fixed_step_due(),
            final(self)@ == old(self)@.stepped(),
            !r ==> *final(self) == *old(self),
    {
        proof {
            use_type_invariant(&*self);
        }
        if self.fixed_time_accumulator.is_at_least(&self.fixed_time) {
            self.fixed_time_accumulator = self.fixed_time_accumulator.checked_sub(self.fixed_time).unwrap();
            true
        } else {
            false
        }
    }
}

impl Default for Time {
    fn default() -> (r: Time)
        ensures
            r@ == TimeState::initial(),
    {
        Time {
            delta_time: Duration::from_secs(0),
            delta_real_time: Duration::from_secs(0),
            fixed_time: Duration::from_nanos(DEFAULT_FIXED_NANOS),
            fixed_time_accumulator: Duration::from_nanos(0),
            frame_number: 0,
            absolute_real_time: Duration::from_nanos(0),
            absolute_time: Duration::from_nanos(0),
            time_scale: TimeScale::one(),
        }
    }
}

} // verus!
