//! Noise gate with hysteresis and close confirmation.
//!
//! Once per frame this stage smooths the frame's mean power with asymmetric
//! attack and release time constants, converts it to milli-decibels, and
//! decides open or closed: it opens above the open threshold, and closes
//! only after the smoothed level has stayed below the (lower) close
//! threshold for a confirmation duration.  The two thresholds plus the
//! confirmation delay are what keep the display from flickering around
//! quiet passages.

use vstd::prelude::*;

use crate::dsp::coeff_spec;
use crate::num::{ema_step, ema_step_spec, exp_decay_fp, mdb_of, mdb_spec, FP_ONE, MDB_FLOOR};

verus! {

pub struct GateParams {
    /// Open when the smoothed level exceeds this, in milli-decibels.
    pub open_mdb: i64,
    /// Begin closing only below this, in milli-decibels.
    pub close_mdb: i64,
    /// Attack time constant, milliseconds (fast; rising power).
    pub attack_ms: u32,
    /// Release time constant, milliseconds (slow; falling power).
    pub release_ms: u32,
    /// How long the level must stay below the close threshold before the
    /// gate closes, milliseconds.
    pub confirm_ms: u32,
}

impl GateParams {
    pub open spec fn wf(&self) -> bool {
        &&& self.close_mdb < self.open_mdb
        &&& 1 <= self.attack_ms <= 60000
        &&& 1 <= self.release_ms <= 60000
        &&& 1 <= self.confirm_ms <= 0x100_0000
    }

    /// The reference gate tuning for a threshold in whole decibels:
    /// close 3 dB under open, 12 ms attack, 220 ms release, 120 ms
    /// confirmation.
    pub fn from_threshold_db(gate_db: i32) -> (p: GateParams)
        requires
            -100 <= gate_db <= 0,
        ensures
            p.wf(),
            p.open_mdb == gate_db * 1000,
            p.close_mdb == gate_db * 1000 - 3000,
            p.attack_ms == 12,
            p.release_ms == 220,
            p.confirm_ms == 120,
    {
        GateParams {
            open_mdb: (gate_db as i64) * 1000,
            close_mdb: (gate_db as i64) * 1000 - 3000,
            attack_ms: 12,
            release_ms: 220,
            confirm_ms: 120,
        }
    }
}

pub struct GateState {
    /// Whether the signal currently counts as audible.
    pub open: bool,
    /// Smoothed mean power, Q16.16.
    pub pow_ema: i64,
    /// Accumulated time below the close threshold, milliseconds.
    pub below_ms: u32,
}

impl GateState {
    pub open spec fn wf(&self) -> bool {
        &&& 0 <= self.pow_ema <= FP_ONE
        &&& self.below_ms <= 0x1000_0000
    }

    /// The state of a gate that has heard nothing: closed and silent.
    pub fn new() -> (s: GateState)
        ensures
            s.wf(),
            !s.open,
            s.pow_ema == 0,
            s.below_ms == 0,
    {
        GateState { open: false, pow_ema: 0, below_ms: 0 }
    }
}

/// The smoothed power after one frame: seeded directly by the first
/// frame, then an EMA whose time constant is the attack one for rising
/// power and the release one for falling power.
pub open spec fn gate_ema_spec(s: GateState, frame_pow: int, dt_ms: int, p: GateParams) -> int {
    if s.pow_ema == 0 {
        frame_pow
    } else {
        let tau = if frame_pow > s.pow_ema {
            p.attack_ms as int
        } else {
            p.release_ms as int
        };
        ema_step_spec(s.pow_ema as int, frame_pow, coeff_spec(tau, dt_ms))
    }
}

/// One whole gate decision for one frame.
pub open spec fn gate_step_spec(s: GateState, frame_pow: i64, dt_ms: u32, p: GateParams)
    -> GateState {
    let ema = gate_ema_spec(s, frame_pow as int, dt_ms as int, p);
    let mdb = mdb_spec(ema as nat);
    if s.open {
        if mdb < p.close_mdb {
            if s.below_ms + dt_ms >= p.confirm_ms {
                GateState { open: false, pow_ema: ema as i64, below_ms: 0 }
            } else {
                GateState { open: true, pow_ema: ema as i64, below_ms: (s.below_ms + dt_ms) as u32 }
            }
        } else {
            GateState { open: true, pow_ema: ema as i64, below_ms: 0 }
        }
    } else {
        GateState { open: mdb > p.open_mdb, pow_ema: ema as i64, below_ms: 0 }
    }
}

/// Advance the hysteretic open/closed state by one frame of mean power.
pub fn gate_step(state: &mut GateState, frame_pow: i64, dt_ms: u32, params: &GateParams)
    requires
        old(state).wf(),
        params.wf(),
        0 <= frame_pow <= FP_ONE,
        1 <= dt_ms <= 60000,
    ensures
        *final(state) == gate_step_spec(*old(state), frame_pow, dt_ms, *params),
        final(state).wf(),
{
    let ema: i64 = if state.pow_ema == 0 {
        frame_pow
    } else {
        let tau = if frame_pow > state.pow_ema {
            params.attack_ms
        } else {
            params.release_ms
        };
        let rate = ((dt_ms as u64) * 65536) / (tau as u64);
        let decay = exp_decay_fp(rate);
        ema_step(state.pow_ema, frame_pow, (65536 - decay) as i64)
    };
    let mdb = mdb_of(ema as u64);
    if state.open {
        if mdb < params.close_mdb {
            let below = state.below_ms + dt_ms;
            if below >= params.confirm_ms {
                state.open = false;
                state.below_ms = 0;
            } else {
                state.below_ms = below;
            }
        } else {
            state.below_ms = 0;
        }
    } else {
        state.below_ms = 0;
        state.open = mdb > params.open_mdb;
    }
    state.pow_ema = ema;
}

/// A closed gate hearing silence stays closed with a silent power
/// estimate: a dead capture source shows as a permanent "no signal"
/// state, never as a crash or flicker.
pub proof fn lemma_gate_silence(s: GateState, dt_ms: u32, p: GateParams)
    requires
        p.wf(),
        p.open_mdb > MDB_FLOOR,
        !s.open,
        s.pow_ema == 0,
    ensures
        !gate_step_spec(s, 0, dt_ms, p).open,
        gate_step_spec(s, 0, dt_ms, p).pow_ema == 0,
{
}

/// A run of gate frames: each element is one frame's mean power and
/// frame interval.
pub open spec fn gate_run(s: GateState, p: GateParams, trace: Seq<(i64, u32)>) -> GateState
    decreases trace.len(),
{
    if trace.len() == 0 {
        s
    } else {
        gate_run(gate_step_spec(s, trace[0].0, trace[0].1, p), p, trace.drop_first())
    }
}

/// An open gate stays open through any trace in which the accumulated
/// time below the close threshold never reaches the confirmation
/// duration — the level may dip below the close threshold repeatedly
/// without the display flickering.  Only a sustained sub-threshold run of
/// at least `confirm_ms` forces the closed state.
pub proof fn lemma_gate_no_flicker(s: GateState, p: GateParams, trace: Seq<(i64, u32)>)
    requires
        p.wf(),
        s.open,
        forall|i: int|
            0 <= i < trace.len() ==> #[trigger] gate_run(s, p, trace.take(i)).below_ms + trace[i].1
                < p.confirm_ms,
    ensures
        forall|i: int| 0 <= i <= trace.len() ==> #[trigger] gate_run(s, p, trace.take(i)).open,
    decreases trace.len(),
{
    assert(trace.take(0) =~= Seq::<(i64, u32)>::empty());
    if trace.len() > 0 {
        let s1 = gate_step_spec(s, trace[0].0, trace[0].1, p);
        assert(gate_run(s, p, trace.take(0)).below_ms + trace[0].1 < p.confirm_ms);
        assert(s1.open);
        let rest = trace.drop_first();
        assert forall|i: int| 0 <= i < rest.len() implies #[trigger] gate_run(
            s1,
            p,
            rest.take(i),
        ).below_ms + rest[i].1 < p.confirm_ms by {
            assert(trace.take(i + 1).drop_first() =~= rest.take(i));
            assert(gate_run(s, p, trace.take(i + 1)) == gate_run(s1, p, rest.take(i)));
            assert(gate_run(s, p, trace.take(i + 1)).below_ms + trace[i + 1].1 < p.confirm_ms);
        }
        lemma_gate_no_flicker(s1, p, rest);
        assert forall|i: int| 0 <= i <= trace.len() implies #[trigger] gate_run(
            s,
            p,
            trace.take(i),
        ).open by {
            if i == 0 {
                assert(trace.take(0) =~= Seq::<(i64, u32)>::empty());
            } else {
                assert(trace.take(i).drop_first() =~= rest.take(i - 1));
                assert(gate_run(s, p, trace.take(i)) == gate_run(s1, p, rest.take(i - 1)));
            }
        }
    }
}

} // verus!
