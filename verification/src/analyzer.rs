//! The band analyzer: smoothed spectrum, filterbank aggregation, tilt,
//! level compression, and the per-band dynamics state.
//!
//! One `SpectrumAnalyzer` owns everything that persists across frames:
//! the filterbank, the per-bin smoothed spectrum, and per-band flow,
//! position and velocity.  The filterbank and the per-band state are
//! rebuilt together, so the analyzer never sees a filterbank whose length
//! disagrees with its band state.

use vstd::prelude::*;

use crate::dsp::coeff_spec;
use crate::dynamics::{
    damping_of, damping_spec, dt_q_of, dt_q_spec, flow_step, flow_step_spec, spring_step,
    spring_step_spec, FlowSpringParams, POS_MAX, VEL_MAX,
};
use crate::filterbank::{build_filterbank, band_weight_spec, Band};
use crate::num::{ema_step, ema_step_spec, exp_decay_fp, mdb_of, mdb_spec, FP_ONE};

verus! {

pub struct SpectrumAnalyzer {
    /// The filterbank, one band per display bar.
    pub filters: Vec<Band>,
    /// Smoothed power per transform bin, Q16.16.
    pub spec_ema: Vec<i64>,
    /// Displayed level per bar, Q16.16.
    pub bars_y: Vec<i64>,
    /// Flow-follower value per bar, Q16.16.
    pub flow: Vec<i64>,
    /// Spring velocity per bar, Q16.16 per second.
    pub vel: Vec<i64>,
}

/// Weighted sum of the first `upto` bins: filterbank weight times
/// smoothed power.
pub open spec fn wsum_spec(w: Seq<u64>, e: Seq<i64>, upto: nat) -> int
    decreases upto,
{
    if upto == 0 {
        0
    } else {
        wsum_spec(w, e, (upto - 1) as nat) + w[upto - 1] * e[upto - 1]
    }
}

/// The tilt gain for band `k` of `bands`: one at the lowest band, up to
/// `1 + 2 * alpha` at the highest, compensating spectral roll-off.
pub open spec fn tilt_gain_spec(tilt_alpha_q: int, k: int, bands: int) -> int {
    if bands <= 1 {
        65536
    } else {
        65536 + (2 * tilt_alpha_q * k) / (bands - 1)
    }
}

/// Map a Q16.16 energy to a display level: milli-decibels over a
/// −60 dB floor, scaled to `[0, 1]`.
pub open spec fn level_of_energy_spec(energy: int) -> int {
    let mdb = mdb_spec(energy as nat);
    if mdb <= -60000 {
        0
    } else if (mdb + 60000) * 65536 / 60000 >= 65536 {
        65536
    } else {
        (mdb + 60000) * 65536 / 60000
    }
}

/// The target level of band `k` for the current frame.
pub open spec fn band_target_spec(
    filters: Seq<Band>,
    ema: Seq<i64>,
    tilt_alpha_q: int,
    gate_open: bool,
    k: int,
) -> int {
    if !gate_open {
        0
    } else {
        let energy = wsum_spec(filters[k].w@, ema, ema.len()) / 65536;
        let tilted = energy * tilt_gain_spec(tilt_alpha_q, k, filters.len() as int) / 65536;
        level_of_energy_spec(tilted)
    }
}

impl SpectrumAnalyzer {
    /// The filterbank agrees with the spectrum length and carries
    /// bounded weights.
    pub open spec fn filters_ok(&self) -> bool {
        &&& forall|k: int|
            0 <= k < self.filters@.len() ==> (#[trigger] self.filters@[k].w@.len())
                == self.spec_ema@.len()
        &&& forall|k: int, i: int|
            0 <= k < self.filters@.len() && 0 <= i < self.spec_ema@.len()
                ==> (#[trigger] self.filters@[k].w@[i]) <= 65536
    }

    /// The analyzer's structural invariant: index-aligned state vectors
    /// and bounded values.
    pub open spec fn wf(&self) -> bool {
        &&& self.filters_ok()
        &&& 2 <= self.spec_ema@.len() <= 4096
        &&& self.filters@.len() <= 512
        &&& self.bars_y@.len() == self.filters@.len()
        &&& self.flow@.len() == self.filters@.len()
        &&& self.vel@.len() == self.filters@.len()
        &&& forall|i: int|
            0 <= i < self.spec_ema@.len() ==> 0 <= (#[trigger] self.spec_ema@[i]) <= 2 * FP_ONE
        &&& forall|i: int|
            0 <= i < self.bars_y@.len() ==> -POS_MAX <= (#[trigger] self.bars_y@[i]) <= POS_MAX
        &&& forall|i: int|
            0 <= i < self.flow@.len() ==> 0 <= (#[trigger] self.flow@[i]) <= POS_MAX
        &&& forall|i: int|
            0 <= i < self.vel@.len() ==> -VEL_MAX <= (#[trigger] self.vel@[i]) <= VEL_MAX
    }

    /// A fresh analyzer for a spectrum of `half` bins, with no bands yet.
    pub fn new(half: usize) -> (a: SpectrumAnalyzer)
        requires
            2 <= half <= 4096,
        ensures
            a.wf(),
            a.filters@.len() == 0,
            a.spec_ema@.len() == half,
            forall|i: int| 0 <= i < half ==> #[trigger] a.spec_ema@[i] == 0,
    {
        let mut ema: Vec<i64> = Vec::new();
        let mut i: usize = 0;
        while i < half
            invariant
                i <= half,
                ema@.len() == i,
                forall|j: int| 0 <= j < i ==> #[trigger] ema@[j] == 0,
            decreases half - i,
        {
            ema.push(0);
            i = i + 1;
        }
        SpectrumAnalyzer {
            filters: Vec::new(),
            spec_ema: ema,
            bars_y: Vec::new(),
            flow: Vec::new(),
            vel: Vec::new(),
        }
    }

    /// Replace the filterbank and reset every per-band state to rest, in
    /// one step, so band count and state length always agree.
    pub fn rebuild(&mut self, sr: u32, n: usize, bands: usize, fmin: u32, fmax: u32)
        requires
            old(self).wf(),
            n / 2 == old(self).spec_ema@.len(),
            16 <= n <= 8192,
            1 <= bands <= 512,
            bands + 2 <= n / 2,
            200 <= sr <= 192000,
            1 <= fmin <= 1000,
            fmin < fmax <= 24000,
        ensures
            final(self).wf(),
            final(self).filters@.len() == bands,
            final(self).spec_ema@ == old(self).spec_ema@,
            forall|k: int, i: int|
                0 <= k < bands && 0 <= i < n / 2 ==> #[trigger] final(self).filters@[k].w@[i]
                    == band_weight_spec(
                    sr as int,
                    n as int,
                    bands as int,
                    fmin as int,
                    fmax as int,
                    k,
                    i,
                ),
            forall|k: int| 0 <= k < bands ==> #[trigger] final(self).bars_y@[k] == 0,
            forall|k: int| 0 <= k < bands ==> #[trigger] final(self).flow@[k] == 0,
            forall|k: int| 0 <= k < bands ==> #[trigger] final(self).vel@[k] == 0,
    {
        let fb = build_filterbank(sr, n, bands, fmin, fmax);
        let mut bars: Vec<i64> = Vec::new();
        let mut flow: Vec<i64> = Vec::new();
        let mut vel: Vec<i64> = Vec::new();
        let mut i: usize = 0;
        while i < bands
            invariant
                i <= bands,
                bars@.len() == i,
                flow@.len() == i,
                vel@.len() == i,
                forall|j: int| 0 <= j < i ==> #[trigger] bars@[j] == 0,
                forall|j: int| 0 <= j < i ==> #[trigger] flow@[j] == 0,
                forall|j: int| 0 <= j < i ==> #[trigger] vel@[j] == 0,
            decreases bands - i,
        {
            bars.push(0);
            flow.push(0);
            vel.push(0);
            i = i + 1;
        }
        self.filters = fb;
        self.bars_y = bars;
        self.flow = flow;
        self.vel = vel;
    }

    /// Exponentially smooth every spectrum bin toward the new power
    /// values, with the time constant `tau` made frame-rate independent
    /// through `1 - exp(-dt/tau)`.
    pub fn update_spectrum(&mut self, pow: &Vec<i64>, tau_ms: u32, dt_ms: u32)
        requires
            old(self).wf(),
            pow@.len() == old(self).spec_ema@.len(),
            forall|i: int| 0 <= i < pow@.len() ==> 0 <= #[trigger] pow@[i] <= 2 * FP_ONE,
            1 <= tau_ms <= 60000,
            1 <= dt_ms <= 60000,
        ensures
            final(self).wf(),
            final(self).spec_ema@.len() == old(self).spec_ema@.len(),
            forall|i: int|
                0 <= i < pow@.len() ==> #[trigger] final(self).spec_ema@[i] == ema_step_spec(
                    old(self).spec_ema@[i] as int,
                    pow@[i] as int,
                    coeff_spec(tau_ms as int, dt_ms as int),
                ),
            final(self).filters@ == old(self).filters@,
            final(self).bars_y@ == old(self).bars_y@,
            final(self).flow@ == old(self).flow@,
            final(self).vel@ == old(self).vel@,
    {
        let rate = ((dt_ms as u64) * 65536) / (tau_ms as u64);
        let decay = exp_decay_fp(rate);
        let coeff = (65536 - decay) as i64;
        let n = self.spec_ema.len();
        let ghost pre = self.spec_ema@;
        let mut i: usize = 0;
        while i < n
            invariant
                self.wf(),
                n == self.spec_ema@.len(),
                pow@.len() == n,
                forall|j: int| 0 <= j < n ==> 0 <= #[trigger] pow@[j] <= 2 * FP_ONE,
                0 <= coeff <= FP_ONE,
                coeff == coeff_spec(tau_ms as int, dt_ms as int),
                i <= n,
                forall|j: int| i <= j < n ==> #[trigger] self.spec_ema@[j] == pre[j],
                forall|j: int|
                    0 <= j < i ==> #[trigger] self.spec_ema@[j] == ema_step_spec(
                        pre[j] as int,
                        pow@[j] as int,
                        coeff as int,
                    ),
                self.filters@ == old(self).filters@,
                self.bars_y@ == old(self).bars_y@,
                self.flow@ == old(self).flow@,
                self.vel@ == old(self).vel@,
            decreases n - i,
        {
            let prev = self.spec_ema[i];
            let next = ema_step(prev, pow[i], coeff);
            self.spec_ema[i] = next;
            i = i + 1;
        }
    }

    /// Aggregate the smoothed spectrum into per-band target levels:
    /// filterbank-weighted energy, tilt boost toward high bands, and
    /// decibel compression to `[0, 1]`; all zero during silence.
    pub fn analyze_bands(&self, tilt_alpha_q: i64, gate_open: bool) -> (targets: Vec<i64>)
        requires
            self.wf(),
            0 <= tilt_alpha_q <= FP_ONE,
        ensures
            targets@.len() == self.filters@.len(),
            forall|k: int|
                0 <= k < targets@.len() ==> #[trigger] targets@[k] == band_target_spec(
                    self.filters@,
                    self.spec_ema@,
                    tilt_alpha_q as int,
                    gate_open,
                    k,
                ),
            forall|k: int| 0 <= k < targets@.len() ==> 0 <= #[trigger] targets@[k] <= FP_ONE,
    {
        let bands = self.filters.len();
        let half = self.spec_ema.len();
        let mut targets: Vec<i64> = Vec::new();
        let mut k: usize = 0;
        while k < bands
            invariant
                self.wf(),
                bands == self.filters@.len(),
                half == self.spec_ema@.len(),
                0 <= tilt_alpha_q <= FP_ONE,
                k <= bands,
                targets@.len() == k,
                forall|kk: int|
                    0 <= kk < k ==> #[trigger] targets@[kk] == band_target_spec(
                        self.filters@,
                        self.spec_ema@,
                        tilt_alpha_q as int,
                        gate_open,
                        kk,
                    ),
                forall|kk: int| 0 <= kk < k ==> 0 <= #[trigger] targets@[kk] <= FP_ONE,
            decreases bands - k,
        {
            if !gate_open {
                targets.push(0);
            } else {
                let mut esum: i64 = 0;
                let mut i: usize = 0;
                while i < half
                    invariant
                        self.wf(),
                        bands == self.filters@.len(),
                        half == self.spec_ema@.len(),
                        k < bands,
                        i <= half,
                        esum == wsum_spec(self.filters@[k as int].w@, self.spec_ema@, i as nat),
                        0 <= esum <= i * 65536 * (2 * FP_ONE),
                    decreases half - i,
                {
                    let wv = self.filters[k].w[i] as i64;
                    let ev = self.spec_ema[i];
                    proof {
                        assert(0 <= wv * ev <= 65536 * (2 * FP_ONE)) by (nonlinear_arith)
                            requires
                                0 <= wv <= 65536,
                                0 <= ev <= 2 * FP_ONE,
                                FP_ONE == 65536,
                        ;
                        assert(i * 65536 * (2 * FP_ONE) + 65536 * (2 * FP_ONE) == (i + 1) * 65536
                            * (2 * FP_ONE)) by (nonlinear_arith);
                        assert(half * 65536 * (2 * FP_ONE) <= 0x2000_0000_0000)
                            by (nonlinear_arith)
                            requires
                                half <= 4096,
                                FP_ONE == 65536,
                        ;
                    }
                    esum = esum + wv * ev;
                    i = i + 1;
                }
                let energy = esum / 65536;
                proof {
                    assert(0 <= esum / 65536 <= 0x2000_0000) by (nonlinear_arith)
                        requires
                            0 <= esum <= 0x2000_0000_0000,
                    ;
                }
                let gain: i64 = if bands <= 1 {
                    65536
                } else {
                    proof {
                        assert(0 <= 2 * tilt_alpha_q * (k as int) <= 0x8000_0000 && 0 <= (2
                            * tilt_alpha_q * (k as int)) / ((bands - 1) as int) <= 2 * 65536)
                            by (nonlinear_arith)
                            requires
                                0 <= tilt_alpha_q <= 65536,
                                0 <= k < bands,
                                2 <= bands <= 512,
                                k <= bands - 1,
                        ;
                    }
                    65536 + (2 * tilt_alpha_q * (k as i64)) / ((bands as i64) - 1)
                };
                proof {
                    assert(0 <= energy * gain && energy * gain <= 0x1000_0000_0000_0000
                        && 0 <= energy * gain / 65536 < 0x100_0000_0000) by (nonlinear_arith)
                        requires
                            0 <= energy <= 0x2000_0000,
                            65536 <= gain <= 3 * 65536,
                    ;
                }
                let tilted = energy * gain / 65536;
                let mdb = mdb_of(tilted as u64);
                let level: i64 = if mdb <= -60000 {
                    0
                } else if (mdb + 60000) * 65536 / 60000 >= 65536 {
                    65536
                } else {
                    (mdb + 60000) * 65536 / 60000
                };
                proof {
                    assert(level == level_of_energy_spec((energy * gain / 65536) as int));
                    assert(0 <= level <= 65536) by (nonlinear_arith)
                        requires
                            level == 0 || level == 65536 || (level == (mdb + 60000) * 65536 / 60000
                                && mdb > -60000 && (mdb + 60000) * 65536 / 60000 < 65536),
                    ;
                }
                targets.push(level);
            }
            k = k + 1;
        }
        targets
    }

    /// Advance every band's flow follower and spring by one frame; a
    /// closed gate drives every target to zero so bars decay to rest
    /// through the same dynamics.
    pub fn apply_flow_and_spring(
        &mut self,
        targets: &Vec<i64>,
        params: &FlowSpringParams,
        dt_ms: u32,
        gate_open: bool,
    )
        requires
            old(self).wf(),
            targets@.len() == old(self).filters@.len(),
            forall|k: int| 0 <= k < targets@.len() ==> 0 <= #[trigger] targets@[k] <= FP_ONE,
            params.wf(),
            1 <= dt_ms <= 1000,
        ensures
            final(self).wf(),
            final(self).filters@ == old(self).filters@,
            final(self).spec_ema@ == old(self).spec_ema@,
            final(self).bars_y@.len() == old(self).bars_y@.len(),
            forall|k: int|
                0 <= k < targets@.len() ==> {
                    let t = if gate_open {
                        targets@[k] as int
                    } else {
                        0int
                    };
                    let f = flow_step_spec(
                        old(self).flow@[k] as int,
                        t,
                        params.flow_k_q as int,
                        dt_q_spec(dt_ms as int),
                    );
                    (#[trigger] final(self).flow@[k]) == f && final(self).bars_y@[k]
                        == spring_step_spec(
                        old(self).bars_y@[k] as int,
                        old(self).vel@[k] as int,
                        f,
                        params.spr_k as int,
                        damping_spec(params.spr_k as int, params.spr_zeta_q as int),
                        dt_q_spec(dt_ms as int),
                    ).0 && final(self).vel@[k] == spring_step_spec(
                        old(self).bars_y@[k] as int,
                        old(self).vel@[k] as int,
                        f,
                        params.spr_k as int,
                        damping_spec(params.spr_k as int, params.spr_zeta_q as int),
                        dt_q_spec(dt_ms as int),
                    ).1
                },
    {
        let c_q = damping_of(params.spr_k, params.spr_zeta_q);
        let dt_q = dt_q_of(dt_ms);
        let bands = self.filters.len();
        let ghost pre_flow = self.flow@;
        let ghost pre_bars = self.bars_y@;
        let ghost pre_vel = self.vel@;
        let mut k: usize = 0;
        while k < bands
            invariant
                self.wf(),
                bands == self.filters@.len(),
                targets@.len() == bands,
                forall|j: int| 0 <= j < bands ==> 0 <= #[trigger] targets@[j] <= FP_ONE,
                params.wf(),
                c_q == damping_spec(params.spr_k as int, params.spr_zeta_q as int),
                1 <= c_q <= VEL_MAX,
                dt_q == dt_q_spec(dt_ms as int),
                65 <= dt_q <= 65536,
                k <= bands,
                self.flow@.len() == bands,
                self.bars_y@.len() == bands,
                self.vel@.len() == bands,
                self.filters@ == old(self).filters@,
                self.spec_ema@ == old(self).spec_ema@,
                forall|j: int| k <= j < bands ==> #[trigger] self.flow@[j] == pre_flow[j],
                forall|j: int| k <= j < bands ==> #[trigger] self.bars_y@[j] == pre_bars[j],
                forall|j: int| k <= j < bands ==> #[trigger] self.vel@[j] == pre_vel[j],
                forall|j: int|
                    0 <= j < k ==> {
                        let t = if gate_open {
                            targets@[j] as int
                        } else {
                            0int
                        };
                        let f = flow_step_spec(
                            pre_flow[j] as int,
                            t,
                            params.flow_k_q as int,
                            dt_q as int,
                        );
                        (#[trigger] self.flow@[j]) == f && self.bars_y@[j] == spring_step_spec(
                            pre_bars[j] as int,
                            pre_vel[j] as int,
                            f,
                            params.spr_k as int,
                            c_q as int,
                            dt_q as int,
                        ).0 && self.vel@[j] == spring_step_spec(
                            pre_bars[j] as int,
                            pre_vel[j] as int,
                            f,
                            params.spr_k as int,
                            c_q as int,
                            dt_q as int,
                        ).1
                    },
            decreases bands - k,
        {
            let t: i64 = if gate_open {
                targets[k]
            } else {
                0
            };
            let f = flow_step(self.flow[k], t, params.flow_k_q, dt_q);
            let (p1, v1) = spring_step(self.bars_y[k], self.vel[k], f, params.spr_k, c_q, dt_q);
            self.flow[k] = f;
            self.bars_y[k] = p1;
            self.vel[k] = v1;
            k = k + 1;
        }
    }
}

} // verus!
