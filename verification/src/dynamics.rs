//! Temporal dynamics: a one-sided rate-limited flow follower feeding a
//! critically damped spring, one state per band.
//!
//! The flow stage drops instantly but rises at a capped rate, removing
//! single-frame spikes; the spring stage integrates
//! `vel += (k * (target - pos) - c * vel) * dt; pos += vel * dt`
//! in Q16.16, which settles bars without oscillation when the damping is
//! at least critical.

use vstd::prelude::*;

use crate::num::{clamp_spec, floor_div, sqrt_up, FP_ONE};

verus! {

/// Largest velocity magnitude the spring state may hold, Q16.16.
pub const VEL_MAX: i64 = 0x40_0010;

/// Largest position magnitude the spring state may hold, Q16.16.
pub const POS_MAX: i64 = 131072;

pub struct FlowSpringParams {
    /// Flow rise rate in level units per second, Q16.16.
    pub flow_k_q: i64,
    /// Spring stiffness (1/s^2), a plain integer.
    pub spr_k: u32,
    /// Damping ratio, Q16.16; 1.0 is critical.
    pub spr_zeta_q: u32,
}

impl FlowSpringParams {
    pub open spec fn wf(&self) -> bool {
        &&& 0 <= self.flow_k_q <= FP_ONE
        &&& 1 <= self.spr_k <= 256
        &&& 6553 <= self.spr_zeta_q <= 131072
    }
}

/// The damping coefficient `2 * zeta * sqrt(k)` in Q16.16, with both the
/// square root and the final division rounded up so that a damping ratio
/// of at least one always yields at least critical damping.
pub open spec fn damping_spec(k: int, zeta_q: int) -> int {
    let s = crate::num::ceil_sqrt_spec((k * 65536 * 65536) as nat);
    (2 * zeta_q * s + 65535) / 65536
}

/// Compute the Q16.16 damping coefficient for a stiffness and damping
/// ratio.
pub fn damping_of(k: u32, zeta_q: u32) -> (c_q: i64)
    requires
        1 <= k <= 256,
        6553 <= zeta_q <= 131072,
    ensures
        c_q == damping_spec(k as int, zeta_q as int),
        1 <= c_q <= VEL_MAX,
        zeta_q >= 65536 ==> c_q * c_q >= 4 * k * 65536 * 65536,
{
    let s = sqrt_up((k as u64) * 65536 * 65536);
    proof {
        crate::num::lemma_isqrt_spec_bounds((k * 65536 * 65536) as nat);
        assert(s * s >= k * 65536 * 65536);
        assert(1 <= s <= 0x10_0000) by (nonlinear_arith)
            requires
                s >= 1 ==> (s - 1) * (s - 1) < k * 65536 * 65536,
                s * s >= k * 65536 * 65536,
                1 <= k <= 256,
                s >= 0,
        ;
        assert(2 * (zeta_q as int) * s + 65535 < 0x1_0000_0000_0000) by (nonlinear_arith)
            requires
                zeta_q <= 131072,
                s <= 0x10_0000,
                zeta_q >= 0,
                s >= 0,
        ;
    }
    let c_q = ((2 * (zeta_q as u64) * s + 65535) / 65536) as i64;
    proof {
        let zi = zeta_q as int;
        let si = s as int;
        let ci = c_q as int;
        assert(1 <= ci <= 0x40_0010) by (nonlinear_arith)
            requires
                ci == (2 * zi * si + 65535) / 65536,
                6553 <= zi <= 131072,
                1 <= si <= 0x10_0000,
        ;
        if zeta_q >= 65536 {
            assert(ci * 65536 >= 2 * zi * si) by (nonlinear_arith)
                requires
                    ci == (2 * zi * si + 65535) / 65536,
                    zi >= 1,
                    si >= 1,
            ;
            assert(ci * ci >= 4 * k * 65536 * 65536) by (nonlinear_arith)
                requires
                    ci * 65536 >= 2 * zi * si,
                    zi >= 65536,
                    si * si >= k * 65536 * 65536,
                    si >= 1,
                    ci >= 1,
                    k >= 1,
            ;
        }
    }
    c_q
}

/// The frame interval in Q16.16 seconds.
pub open spec fn dt_q_spec(dt_ms: int) -> int {
    (dt_ms * 65536) / 1000
}

/// Convert a frame interval in milliseconds to Q16.16 seconds.
pub fn dt_q_of(dt_ms: u32) -> (dt_q: i64)
    requires
        1 <= dt_ms <= 1000,
    ensures
        dt_q == dt_q_spec(dt_ms as int),
        65 <= dt_q <= 65536,
{
    (((dt_ms as u64) * 65536) / 1000) as i64
}

/// One flow-follower step: drop to the target at once, but rise no
/// faster than `flow_k` levels per second.
pub open spec fn flow_step_spec(flow: int, target: int, flow_k_q: int, dt_q: int) -> int {
    if target <= flow {
        target
    } else {
        let step = (flow_k_q * dt_q) / 65536;
        if flow + step < target {
            flow + step
        } else {
            target
        }
    }
}

pub fn flow_step(flow: i64, target: i64, flow_k_q: i64, dt_q: i64) -> (r: i64)
    requires
        0 <= flow <= POS_MAX,
        0 <= target <= POS_MAX,
        0 <= flow_k_q <= FP_ONE,
        1 <= dt_q <= 65536,
    ensures
        r == flow_step_spec(flow as int, target as int, flow_k_q as int, dt_q as int),
        0 <= r <= POS_MAX,
        target <= flow ==> r == target,
        flow <= target ==> flow <= r <= target,
{
    if target <= flow {
        target
    } else {
        proof {
            assert(0 <= (flow_k_q * dt_q) / 65536 <= 65536) by (nonlinear_arith)
                requires
                    0 <= flow_k_q <= 65536,
                    1 <= dt_q <= 65536,
            ;
        }
        let step = (((flow_k_q as u64) * (dt_q as u64)) / 65536) as i64;
        if flow + step < target {
            flow + step
        } else {
            target
        }
    }
}

/// One spring step: the semi-implicit integration written out exactly,
/// with the velocity and position defensively clamped.
pub open spec fn spring_step_spec(pos: int, vel: int, target: int, k: int, c_q: int, dt_q: int)
    -> (int, int) {
    let q2 = 65536int * 65536;
    let num = k * (target - pos) * dt_q * 65536 - c_q * vel * dt_q;
    let v1 = vel + num / q2;
    let v2 = clamp_spec(v1, -VEL_MAX as int, VEL_MAX as int);
    let du = (v2 * dt_q) / 65536;
    let p1 = clamp_spec(pos + du, -POS_MAX as int, POS_MAX as int);
    (p1, v2)
}

pub fn spring_step(pos: i64, vel: i64, target: i64, k: u32, c_q: i64, dt_q: i64) -> (r: (i64, i64))
    requires
        -POS_MAX <= pos <= POS_MAX,
        -VEL_MAX <= vel <= VEL_MAX,
        -POS_MAX <= target <= POS_MAX,
        1 <= k <= 256,
        1 <= c_q <= VEL_MAX,
        1 <= dt_q <= 65536,
    ensures
        r.0 == spring_step_spec(
            pos as int,
            vel as int,
            target as int,
            k as int,
            c_q as int,
            dt_q as int,
        ).0,
        r.1 == spring_step_spec(
            pos as int,
            vel as int,
            target as int,
            k as int,
            c_q as int,
            dt_q as int,
        ).1,
        -POS_MAX <= r.0 <= POS_MAX,
        -VEL_MAX <= r.1 <= VEL_MAX,
{
    proof {
        assert(-0x400_0000 <= k * (target - pos) <= 0x400_0000) by (nonlinear_arith)
            requires
                1 <= k <= 256,
                -2 * POS_MAX <= target - pos <= 2 * POS_MAX,
                POS_MAX == 131072,
        ;
        assert(-0x400_0000_0000 <= k * (target - pos) * dt_q <= 0x400_0000_0000
            && -0x400_0000_0000_0000 <= k * (target - pos) * dt_q * 65536
            <= 0x400_0000_0000_0000) by (nonlinear_arith)
            requires
                -0x400_0000 <= k * (target - pos) <= 0x400_0000,
                1 <= dt_q <= 65536,
        ;
        assert(-0x1100_0000_0000 <= c_q * vel <= 0x1100_0000_0000) by (nonlinear_arith)
            requires
                1 <= c_q <= VEL_MAX,
                -VEL_MAX <= vel <= VEL_MAX,
                VEL_MAX == 0x40_0010,
        ;
        assert(-0x1800_0000_0000_0000 <= c_q * vel * dt_q <= 0x1800_0000_0000_0000)
            by (nonlinear_arith)
            requires
                -0x1100_0000_0000 <= c_q * vel <= 0x1100_0000_0000,
                1 <= dt_q <= 65536,
        ;
    }
    let num = (k as i64) * (target - pos) * dt_q * 65536 - c_q * vel * dt_q;
    let dv = floor_div(num, 65536 * 65536);
    proof {
        assert(-0x10_0000_0000 <= (num as int) / (65536int * 65536) <= 0x10_0000_0000)
            by (nonlinear_arith)
            requires
                -0x2000_0000_0000_0000 <= num <= 0x2000_0000_0000_0000,
        ;
    }
    let v1 = vel + dv;
    let v2 = if v1 < -VEL_MAX {
        -VEL_MAX
    } else if v1 > VEL_MAX {
        VEL_MAX
    } else {
        v1
    };
    proof {
        assert(-0x1000_0000_0000 <= v2 * dt_q <= 0x1000_0000_0000) by (nonlinear_arith)
            requires
                -VEL_MAX <= v2 <= VEL_MAX,
                VEL_MAX == 0x40_0010,
                1 <= dt_q <= 65536,
        ;
        assert(-0x1_0000_0000 <= (v2 as int * dt_q) / 65536 <= 0x1_0000_0000) by (nonlinear_arith)
            requires
                -0x1000_0000_0000 <= v2 * dt_q <= 0x1000_0000_0000,
        ;
    }
    let du = floor_div(v2 * dt_q, 65536);
    let p1 = pos + du;
    let p2 = if p1 < -POS_MAX {
        -POS_MAX
    } else if p1 > POS_MAX {
        POS_MAX
    } else {
        p1
    };
    (p2, v2)
}

/// The region from which a spring rising toward `target` can never
/// overshoot: at or below the target, moving upward, with the velocity
/// small against the damped gap.
pub open spec fn spring_inv(pos: int, vel: int, target: int, c_q: int) -> bool {
    &&& 0 <= pos <= target
    &&& vel >= 0
    &&& c_q * (target - pos) >= 2 * vel * 65536
}

/// One step of an at-least-critically damped spring below its target
/// never overshoots: the position rises, stays at or below the target,
/// and the state remains in the no-overshoot region.
pub proof fn lemma_spring_no_overshoot(
    pos: int,
    vel: int,
    target: int,
    k: int,
    c_q: int,
    dt_q: int,
)
    requires
        spring_inv(pos, vel, target, c_q),
        target <= 65536,
        1 <= k <= 256,
        1 <= c_q <= VEL_MAX,
        1 <= dt_q <= 65536,
        4 * k * 65536 * 65536 <= c_q * c_q,
        c_q * dt_q <= 65536 * 65536,
    ensures
        spring_inv(
            spring_step_spec(pos, vel, target, k, c_q, dt_q).0,
            spring_step_spec(pos, vel, target, k, c_q, dt_q).1,
            target,
            c_q,
        ),
        pos <= spring_step_spec(pos, vel, target, k, c_q, dt_q).0 <= target,
{
    let qq = 65536int;
    let q2 = qq * qq;
    let e = target - pos;
    let cd = c_q * dt_q;
    let ce = c_q * e;
    let num = k * e * dt_q * qq - c_q * vel * dt_q;
    let vnum = vel * q2 + num;
    // vnum = vel * (q2 - cd) + k * e * dt_q * qq, and both parts are nonnegative
    assert(vnum == vel * (q2 - cd) + k * e * dt_q * qq) by (nonlinear_arith)
        requires
            vnum == vel * q2 + k * e * dt_q * qq - c_q * vel * dt_q,
            cd == c_q * dt_q,
    ;
    assert(vel * (q2 - cd) >= 0) by (nonlinear_arith)
        requires
            vel >= 0,
            cd <= q2,
    ;
    assert(k * e * dt_q * qq >= 0) by (nonlinear_arith)
        requires
            k >= 0,
            e >= 0,
            dt_q >= 0,
            qq >= 0,
    ;
    let v1 = vel + num / q2;
    // the floored update stays below the exact one and above it minus one
    assert(q2 * (num / q2) <= num < q2 * (num / q2) + q2) by (nonlinear_arith)
        requires
            q2 == 65536 * 65536,
    ;
    assert(q2 * v1 <= vnum) by (nonlinear_arith)
        requires
            q2 * (num / q2) <= num,
            v1 == vel + num / q2,
            vnum == vel * q2 + num,
            q2 == 65536 * 65536,
    ;
    assert(q2 * v1 > vnum - q2) by (nonlinear_arith)
        requires
            num < q2 * (num / q2) + q2,
            v1 == vel + num / q2,
            vnum == vel * q2 + num,
            q2 == 65536 * 65536,
    ;
    assert(v1 >= 0) by (nonlinear_arith)
        requires
            q2 * v1 > vnum - q2,
            vnum >= 0,
            q2 == 65536 * 65536,
    ;
    // rising step: 4*qq*vnum <= ce * (2*q2 - cd), the heart of the
    // no-overshoot bound
    assert(4 * qq * (vel * (q2 - cd)) <= 2 * (q2 - cd) * ce) by (nonlinear_arith)
        requires
            2 * vel * qq <= ce,
            0 <= q2 - cd,
            vel >= 0,
            qq >= 1,
    ;
    assert(4 * qq * (k * e * dt_q * qq) <= ce * cd) by (nonlinear_arith)
        requires
            4 * k * q2 <= c_q * c_q,
            cd == c_q * dt_q,
            ce == c_q * e,
            q2 == qq * qq,
            e >= 0,
            dt_q >= 1,
            c_q >= 1,
            qq == 65536,
    ;
    assert(4 * qq * vnum <= ce * (2 * q2 - cd)) by (nonlinear_arith)
        requires
            vnum == vel * (q2 - cd) + k * e * dt_q * qq,
            4 * qq * (vel * (q2 - cd)) <= 2 * (q2 - cd) * ce,
            4 * qq * (k * e * dt_q * qq) <= ce * cd,
    ;
    // so v1 is small: v1 <= c_q, and the velocity clamp does nothing
    assert(4 * qq * (q2 * v1) <= 2 * ce * q2) by (nonlinear_arith)
        requires
            q2 * v1 <= vnum,
            4 * qq * vnum <= ce * (2 * q2 - cd),
            cd >= 0,
            qq >= 1,
            q2 >= 1,
            ce >= 0,
    ;
    assert(v1 <= c_q) by (nonlinear_arith)
        requires
            4 * qq * (q2 * v1) <= 2 * ce * q2,
            ce == c_q * e,
            0 <= e <= qq,
            c_q >= 1,
            qq == 65536,
            q2 == qq * qq,
    ;
    let v2 = clamp_spec(v1, -VEL_MAX as int, VEL_MAX as int);
    assert(v2 == v1);
    // the cone inequality: (2*q2 + cd) * (q2 * v1) <= ce * qq * q2
    assert((2 * q2 + cd) * (4 * qq * vnum) <= 4 * ce * q2 * q2) by (nonlinear_arith)
        requires
            4 * qq * vnum <= ce * (2 * q2 - cd),
            0 <= cd <= q2,
            vnum >= 0,
            ce >= 0,
            q2 >= 1,
            qq >= 1,
    ;
    assert((2 * q2 + cd) * (q2 * v1) <= ce * qq * q2) by (nonlinear_arith)
        requires
            q2 * v1 <= vnum,
            (2 * q2 + cd) * (4 * qq * vnum) <= 4 * ce * q2 * q2,
            cd >= 0,
            q2 == qq * qq,
            qq == 65536,
    ;
    let du = (v1 * dt_q) / qq;
    assert(qq * du <= v1 * dt_q < qq * du + qq) by (nonlinear_arith)
        requires
            du == (v1 * dt_q) / qq,
            qq == 65536,
    ;
    assert(du >= 0) by (nonlinear_arith)
        requires
            qq * du + qq > v1 * dt_q,
            v1 >= 0,
            dt_q >= 1,
            qq == 65536,
    ;
    // new gap keeps the cone: c_q * (e - du) >= 2 * v1 * qq
    assert(qq * q2 * (c_q * du) <= q2 * (cd * v1)) by (nonlinear_arith)
        requires
            qq * du <= v1 * dt_q,
            cd == c_q * dt_q,
            c_q >= 1,
            q2 >= 1,
            qq >= 1,
    ;
    assert(qq * q2 * (c_q * (e - du)) >= qq * q2 * (2 * v1 * qq)) by (nonlinear_arith)
        requires
            (2 * q2 + cd) * (q2 * v1) <= ce * qq * q2,
            qq * q2 * (c_q * du) <= q2 * (cd * v1),
            ce == c_q * e,
            q2 == qq * qq,
            qq == 65536,
            v1 >= 0,
    ;
    assert(c_q * (e - du) >= 2 * v1 * qq) by (nonlinear_arith)
        requires
            qq * q2 * (c_q * (e - du)) >= qq * q2 * (2 * v1 * qq),
            qq == 65536,
            q2 == qq * qq,
    ;
    let p1 = pos + du;
    assert(p1 <= target) by (nonlinear_arith)
        requires
            c_q * (e - du) >= 2 * v1 * qq,
            v1 >= 0,
            c_q >= 1,
            e == target - pos,
            p1 == pos + du,
            qq == 65536,
    ;
    assert(clamp_spec(p1, -POS_MAX as int, POS_MAX as int) == p1);
}

/// A band at rest with a zero target stays exactly at rest: silence
/// keeps every displayed level at zero.
pub proof fn lemma_spring_rest(k: int, c_q: int, dt_q: int)
    requires
        1 <= k <= 256,
        1 <= c_q <= VEL_MAX,
        1 <= dt_q <= 65536,
    ensures
        spring_step_spec(0, 0, 0, k, c_q, dt_q) == (0int, 0int),
{
    assert(k * (0 - 0) * dt_q * 65536 - c_q * 0 * dt_q == 0) by (nonlinear_arith);
}

/// Run the spring for `n` frames of one fixed interval toward one fixed
/// target.
pub open spec fn spring_run(
    pos: int,
    vel: int,
    target: int,
    k: int,
    c_q: int,
    dt_q: int,
    n: nat,
) -> (int, int)
    decreases n,
{
    if n == 0 {
        (pos, vel)
    } else {
        let prev = spring_run(pos, vel, target, k, c_q, dt_q, (n - 1) as nat);
        spring_step_spec(prev.0, prev.1, target, k, c_q, dt_q)
    }
}

/// A constant target held for any number of frames is approached
/// monotonically from below and never exceeded, for any at-least-critical
/// damping: starting at rest below the target, the position after every
/// frame lies between its previous value and the target.
pub proof fn lemma_spring_run_no_overshoot(
    pos: int,
    vel: int,
    target: int,
    k: int,
    c_q: int,
    dt_q: int,
    n: nat,
)
    requires
        spring_inv(pos, vel, target, c_q),
        target <= 65536,
        1 <= k <= 256,
        1 <= c_q <= VEL_MAX,
        1 <= dt_q <= 65536,
        4 * k * 65536 * 65536 <= c_q * c_q,
        c_q * dt_q <= 65536 * 65536,
    ensures
        spring_inv(
            spring_run(pos, vel, target, k, c_q, dt_q, n).0,
            spring_run(pos, vel, target, k, c_q, dt_q, n).1,
            target,
            c_q,
        ),
        pos <= spring_run(pos, vel, target, k, c_q, dt_q, n).0 <= target,
    decreases n,
{
    if n > 0 {
        lemma_spring_run_no_overshoot(pos, vel, target, k, c_q, dt_q, (n - 1) as nat);
        let prev = spring_run(pos, vel, target, k, c_q, dt_q, (n - 1) as nat);
        lemma_spring_no_overshoot(prev.0, prev.1, target, k, c_q, dt_q);
    }
}

} // verus!
