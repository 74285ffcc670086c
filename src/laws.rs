//! What holds of a clock over whole runs of frames and fixed steps.

use vstd::prelude::*;
use vstd::arithmetic::div_mod::{
    lemma_basic_div, lemma_small_mod, lemma_div_plus_one, lemma_mod_add_multiples_vanish,
    lemma_fundamental_div_mod, lemma_hoist_over_denominator, lemma_mod_multiples_vanish,
};
use crate::scale::{scaled_nanos, is_valid_scale_bits};
use crate::time::TimeState;

verus! {

/// The sum of a sequence of nanosecond counts.
pub open spec fn total(ds: Seq<nat>) -> nat
    decreases ds.len(),
{
    if ds.len() == 0 {
        0
    } else {
        total(ds.drop_last()) + ds.last()
    }
}

/// The state after frames of real durations `ds`, in order, with no fixed steps taken.
pub open spec fn run_frames(t: TimeState, ds: Seq<nat>) -> TimeState
    decreases ds.len(),
{
    if ds.len() == 0 {
        t
    } else {
        run_frames(t, ds.drop_last()).advanced(ds.last())
    }
}

/// The scaled delta reported after each of the frames `ds`.
pub open spec fn delta_history(t: TimeState, ds: Seq<nat>) -> Seq<nat>
    decreases ds.len(),
{
    if ds.len() == 0 {
        Seq::empty()
    } else {
        delta_history(t, ds.drop_last()).push(run_frames(t, ds).delta_time)
    }
}

/// The real delta reported after each of the frames `ds`.
pub open spec fn real_delta_history(t: TimeState, ds: Seq<nat>) -> Seq<nat>
    decreases ds.len(),
{
    if ds.len() == 0 {
        Seq::empty()
    } else {
        real_delta_history(t, ds.drop_last()).push(run_frames(t, ds).delta_real_time)
    }
}

/// Fixed steps taken until `step_fixed_update` reports false: the final
/// state and the number of steps that returned true.
pub open spec fn drained(t: TimeState) -> (TimeState, nat)
    decreases t.fixed_time_accumulator,
    when t.fixed_time > 0
{
    if t.fixed_step_due() {
        let (u, n) = drained(t.stepped());
        (u, n + 1)
    } else {
        (t, 0)
    }
}

/// Frames of real durations `ds`, each followed by draining the fixed steps:
/// the final state and the number of fixed steps taken in all.
pub open spec fn run_frames_draining(t: TimeState, ds: Seq<nat>) -> (TimeState, nat)
    decreases ds.len(),
{
    if ds.len() == 0 {
        (t, 0)
    } else {
        let (u, n) = run_frames_draining(t, ds.drop_last());
        let (w, m) = drained(u.advanced(ds.last()));
        (w, n + m)
    }
}

/// After the scale is set to `s` and a frame of `d` nanoseconds is advanced,
/// the scaled delta is `d` times `s` and the real delta is `d`.
pub proof fn lemma_delta_follows_scale(t: TimeState, s: u32, d: nat)
    requires
        is_valid_scale_bits(s),
    ensures
        t.with_time_scale(s).advanced(d).delta_time == scaled_nanos(d, s),
        t.with_time_scale(s).advanced(d).delta_real_time == d,
{
}

/// Each frame adds exactly one to the frame number, and nothing resets it:
/// from a fresh clock it counts the frames.
pub proof fn lemma_frame_number_counts_frames(t: TimeState, ds: Seq<nat>)
    ensures
        run_frames(t, ds).frame_number == t.frame_number + ds.len(),
        t == TimeState::initial() ==> run_frames(t, ds).frame_number == ds.len(),
    decreases ds.len(),
{
    if ds.len() > 0 {
        lemma_frame_number_counts_frames(t, ds.drop_last());
    }
}

/// The absolute times grow by exactly the deltas reported: each is its
/// starting value plus the sum of all deltas reported since, so from a fresh
/// clock it is that sum.
pub proof fn lemma_absolute_times_sum_deltas(t: TimeState, ds: Seq<nat>)
    ensures
        run_frames(t, ds).absolute_time == t.absolute_time + total(delta_history(t, ds)),
        run_frames(t, ds).absolute_real_time == t.absolute_real_time + total(
            real_delta_history(t, ds),
        ),
        real_delta_history(t, ds) == ds,
    decreases ds.len(),
{
    if ds.len() > 0 {
        lemma_absolute_times_sum_deltas(t, ds.drop_last());
        let h = delta_history(t, ds);
        let rh = real_delta_history(t, ds);
        assert(h.drop_last() == delta_history(t, ds.drop_last()));
        assert(rh.drop_last() == real_delta_history(t, ds.drop_last()));
        assert(rh =~= ds);
    }
}

/// Draining takes `acc / F` steps and leaves `acc % F` in the accumulator,
/// where `acc` is the banked time and `F` the positive fixed interval;
/// nothing else changes.
pub proof fn lemma_drained(t: TimeState)
    requires
        t.fixed_time > 0,
    ensures
        drained(t).1 == t.fixed_time_accumulator / t.fixed_time,
        drained(t).0 == (TimeState {
            fixed_time_accumulator: t.fixed_time_accumulator % t.fixed_time,
            ..t
        }),
        drained(t).0.fixed_time_accumulator < t.fixed_time,
    decreases t.fixed_time_accumulator,
{
    let a = t.fixed_time_accumulator as int;
    let f = t.fixed_time as int;
    if t.fixed_step_due() {
        lemma_drained(t.stepped());
        lemma_div_plus_one(a - f, f);
        lemma_mod_add_multiples_vanish(a - f, f);
    } else {
        lemma_basic_div(a, f);
        lemma_small_mod(a as nat, f as nat);
    }
    vstd::arithmetic::div_mod::lemma_mod_bound(a, f);
}

/// Over frames of real durations `ds`, each followed by draining, the fixed
/// steps taken number `(acc + sum(ds)) / F`, where `acc` is the time banked at
/// the start of a drained clock and `F` the positive fixed interval; what
/// remains banked is the rest, less than `F`. The scale plays no part.
pub proof fn lemma_fixed_step_count(t: TimeState, ds: Seq<nat>)
    requires
        t.fixed_time > 0,
        t.fixed_time_accumulator < t.fixed_time,
    ensures
        run_frames_draining(t, ds).1 == (t.fixed_time_accumulator + total(ds)) / t.fixed_time,
        run_frames_draining(t, ds).0.fixed_time_accumulator == (t.fixed_time_accumulator
            + total(ds)) % t.fixed_time,
        run_frames_draining(t, ds).0.fixed_time_accumulator < t.fixed_time,
        run_frames_draining(t, ds).0.fixed_time == t.fixed_time,
        t.fixed_time_accumulator == 0 ==> run_frames_draining(t, ds).1 == total(ds)
            / t.fixed_time,
    decreases ds.len(),
{
    let f = t.fixed_time as int;
    vstd::arithmetic::div_mod::lemma_mod_bound((t.fixed_time_accumulator + total(ds)) as int, f);
    if ds.len() == 0 {
        lemma_basic_div(t.fixed_time_accumulator as int, f);
        lemma_small_mod(t.fixed_time_accumulator, t.fixed_time);
    } else {
        let prefix = ds.drop_last();
        let d = ds.last() as int;
        lemma_fixed_step_count(t, prefix);
        let (u, n) = run_frames_draining(t, prefix);
        let x = (t.fixed_time_accumulator + total(prefix)) as int;
        let q = x / f;
        let r = x % f;
        lemma_drained(u.advanced(ds.last()));
        lemma_fundamental_div_mod(x, f);
        lemma_hoist_over_denominator(r + d, q, f as nat);
        lemma_mod_multiples_vanish(q, r + d, f);
        assert(f * q + r + d == x + d);
        assert(q * f == f * q) by (nonlinear_arith);
    }
}

/// One call on a clock, with its argument as a plain number.
pub ghost enum ClockOp {
    Advance(nat),
    SetFixedTime(nat),
    SetTimeScale(u32),
    StepFixedUpdate,
}

/// The state after one call, as the methods' contracts give it.
pub open spec fn apply_op(t: TimeState, op: ClockOp) -> TimeState {
    match op {
        ClockOp::Advance(d) => t.advanced(d),
        ClockOp::SetFixedTime(f) => t.with_fixed_time(f),
        ClockOp::SetTimeScale(bits) => t.with_time_scale(bits),
        ClockOp::StepFixedUpdate => t.stepped(),
    }
}

/// The state after the calls `ops`, in order.
pub open spec fn run_ops(t: TimeState, ops: Seq<ClockOp>) -> TimeState
    decreases ops.len(),
{
    if ops.len() == 0 {
        t
    } else {
        apply_op(run_ops(t, ops.drop_last()), ops.last())
    }
}

/// The number of frame advances among `ops`.
pub open spec fn advance_count(ops: Seq<ClockOp>) -> nat
    decreases ops.len(),
{
    if ops.len() == 0 {
        0
    } else {
        advance_count(ops.drop_last()) + if ops.last() is Advance {
            1nat
        } else {
            0nat
        }
    }
}

/// The real durations of the frame advances among `ops`, in order.
pub open spec fn advance_durations(ops: Seq<ClockOp>) -> Seq<nat>
    decreases ops.len(),
{
    if ops.len() == 0 {
        Seq::empty()
    } else {
        match ops.last() {
            ClockOp::Advance(d) => advance_durations(ops.drop_last()).push(d),
            _ => advance_durations(ops.drop_last()),
        }
    }
}

/// The scaled delta reported right after each frame advance among `ops`.
pub open spec fn op_delta_history(t: TimeState, ops: Seq<ClockOp>) -> Seq<nat>
    decreases ops.len(),
{
    if ops.len() == 0 {
        Seq::empty()
    } else if ops.last() is Advance {
        op_delta_history(t, ops.drop_last()).push(run_ops(t, ops).delta_time)
    } else {
        op_delta_history(t, ops.drop_last())
    }
}

/// What each fixed-step call among `ops` returns, in order.
pub open spec fn step_results(t: TimeState, ops: Seq<ClockOp>) -> Seq<bool>
    decreases ops.len(),
{
    if ops.len() == 0 {
        Seq::empty()
    } else if ops.last() is StepFixedUpdate {
        step_results(t, ops.drop_last()).push(run_ops(t, ops.drop_last()).fixed_step_due())
    } else {
        step_results(t, ops.drop_last())
    }
}

/// Whatever calls are mixed in, the frame number rises by exactly one per
/// frame advance and by nothing else: from a fresh clock it is the number of
/// advances.
pub proof fn lemma_frame_number_counts_advances(t: TimeState, ops: Seq<ClockOp>)
    ensures
        run_ops(t, ops).frame_number == t.frame_number + advance_count(ops),
        t == TimeState::initial() ==> run_ops(t, ops).frame_number == advance_count(ops),
    decreases ops.len(),
{
    if ops.len() > 0 {
        lemma_frame_number_counts_advances(t, ops.drop_last());
    }
}

/// Whatever calls are mixed in, the real absolute time is its start plus
/// the sum of the frames' real durations, and the scaled absolute time its
/// start plus the sum of the scaled deltas reported after each frame.
pub proof fn lemma_absolute_times_sum_deltas_mixed(t: TimeState, ops: Seq<ClockOp>)
    ensures
        run_ops(t, ops).absolute_real_time == t.absolute_real_time + total(
            advance_durations(ops),
        ),
        run_ops(t, ops).absolute_time == t.absolute_time + total(op_delta_history(t, ops)),
    decreases ops.len(),
{
    if ops.len() > 0 {
        lemma_absolute_times_sum_deltas_mixed(t, ops.drop_last());
        let h = op_delta_history(t, ops);
        let ds = advance_durations(ops);
        if ops.last() is Advance {
            assert(h.drop_last() == op_delta_history(t, ops.drop_last()));
            assert(ds.drop_last() == advance_durations(ops.drop_last()));
        }
    }
}

/// The time scale never affects the fixed-step cadence: two clocks with the
/// same fixed interval and the same banked time, given the same calls, keep
/// the same interval and banked time, and every fixed-step call returns the
/// same on both.
pub proof fn lemma_scale_does_not_affect_fixed_steps(
    t1: TimeState,
    t2: TimeState,
    ops: Seq<ClockOp>,
)
    requires
        t1.fixed_time == t2.fixed_time,
        t1.fixed_time_accumulator == t2.fixed_time_accumulator,
    ensures
        run_ops(t1, ops).fixed_time == run_ops(t2, ops).fixed_time,
        run_ops(t1, ops).fixed_time_accumulator == run_ops(t2, ops).fixed_time_accumulator,
        step_results(t1, ops) == step_results(t2, ops),
    decreases ops.len(),
{
    if ops.len() > 0 {
        lemma_scale_does_not_affect_fixed_steps(t1, t2, ops.drop_last());
    }
}

} // verus!
