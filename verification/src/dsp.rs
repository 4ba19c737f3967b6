//! Spectral front-end arithmetic: the analysis window, windowing of a
//! sample tail, power-spectrum normalization, frame mixing, and the
//! time-constant form of the exponential moving average.
//!
//! The forward transform itself runs outside the core on machine floats;
//! this module prepares its real input and normalizes its complex output,
//! both in Q16.16 fixed point.

use vstd::prelude::*;

use crate::num::{ema_step, ema_step_spec, exp_decay_fp, exp_decay_spec, floor_div, FP_ONE};

verus! {

/// Every element of `s` lies in `[-b, b]`.
pub open spec fn bounded_by(s: Seq<i64>, b: int) -> bool {
    forall|i: int| 0 <= i < s.len() ==> -b <= #[trigger] s[i] <= b
}

/// Window coefficient `i` of an `n`-point raised taper in Q16.16:
/// the square of the parabolic arch `4 t (1 - t)`, `t = i / (n-1)`,
/// which rises from zero at the edges to one at the center.
pub open spec fn window_coeff_spec(n: int, i: int) -> int {
    let m = (n - 1) * (n - 1);
    let a = i * (n - 1 - i);
    ((16 * a * a / m) * 65536) / m
}

/// Build the `n`-point analysis window.
pub fn build_window(n: usize) -> (w: Vec<u64>)
    requires
        2 <= n <= 8192,
    ensures
        w@.len() == n,
        forall|i: int| 0 <= i < n ==> #[trigger] w@[i] == window_coeff_spec(n as int, i),
        forall|i: int| 0 <= i < n ==> #[trigger] w@[i] <= 65536,
{
    let nm1 = (n - 1) as u64;
    proof {
        assert(1 <= nm1 * nm1 < 0x1_0000_0000) by (nonlinear_arith)
            requires
                1 <= nm1 <= 8191,
        ;
    }
    let m = nm1 * nm1;
    let mut w: Vec<u64> = Vec::new();
    let mut i: usize = 0;
    while i < n
        invariant
            2 <= n <= 8192,
            m == ((n - 1) * (n - 1)) as int,
            1 <= m < 0x1_0000_0000,
            i <= n,
            w@.len() == i,
            forall|j: int| 0 <= j < i ==> #[trigger] w@[j] == window_coeff_spec(n as int, j),
            forall|j: int| 0 <= j < i ==> #[trigger] w@[j] <= 65536,
        decreases n - i,
    {
        proof {
            assert((i as int) * ((n - 1 - i) as int) <= 8191 * 8191) by (nonlinear_arith)
                requires
                    0 <= i < n <= 8192,
            ;
        }
        let a = (i as u64) * ((n - 1 - i) as u64);
        proof {
            let ai = a as int;
            let mi = m as int;
            assert(4 * ai <= mi) by (nonlinear_arith)
                requires
                    ai == i * (n - 1 - i),
                    mi == (n - 1) * (n - 1),
                    0 <= i <= n - 1,
            ;
            assert(16 * ai * ai <= mi * mi && mi * mi < 0x1_0000_0000_0000_0000)
                by (nonlinear_arith)
                requires
                    4 * ai <= mi,
                    0 <= ai,
                    1 <= mi < 0x1_0000_0000,
            ;
            assert((16 * ai * ai) / mi <= mi) by (nonlinear_arith)
                requires
                    16 * ai * ai <= mi * mi,
                    mi >= 1,
            ;
            assert(((16 * ai * ai / mi) * 65536) / mi <= 65536 && (16 * ai * ai / mi) * 65536
                < 0x1_0000_0000_0000_0000) by (nonlinear_arith)
                requires
                    (16 * ai * ai) / mi <= mi,
                    1 <= mi < 0x1_0000_0000,
                    0 <= ai,
            ;
        }
        let t = (16 * a * a) / m;
        w.push((t * 65536) / m);
        i = i + 1;
    }
    w
}

/// The window is symmetric about its center.
pub proof fn lemma_window_symmetric(n: int, i: int)
    requires
        2 <= n,
        0 <= i < n,
    ensures
        window_coeff_spec(n, i) == window_coeff_spec(n, n - 1 - i),
{
    assert(i * (n - 1 - i) == (n - 1 - i) * (n - 1 - (n - 1 - i))) by (nonlinear_arith);
}

/// A sample scaled by a window coefficient, truncating toward zero.
pub open spec fn windowed_spec(s: int, w: int) -> int {
    if s >= 0 {
        (s * w) / 65536
    } else {
        -(((-s) * w) / 65536)
    }
}

/// Multiply a sample tail by the window, element-wise.
pub fn apply_window(samples: &Vec<i64>, window: &Vec<u64>) -> (out: Vec<i64>)
    requires
        samples@.len() == window@.len(),
        forall|i: int| 0 <= i < samples@.len() ==> -FP_ONE <= #[trigger] samples@[i] <= FP_ONE,
        forall|i: int| 0 <= i < window@.len() ==> #[trigger] window@[i] <= 65536,
    ensures
        out@.len() == samples@.len(),
        forall|i: int|
            0 <= i < out@.len() ==> #[trigger] out@[i] == windowed_spec(
                samples@[i] as int,
                window@[i] as int,
            ),
        forall|i: int| 0 <= i < out@.len() ==> -FP_ONE <= #[trigger] out@[i] <= FP_ONE,
{
    let n = samples.len();
    let mut out: Vec<i64> = Vec::new();
    let mut i: usize = 0;
    while i < n
        invariant
            n == samples@.len() == window@.len(),
            forall|j: int| 0 <= j < n ==> -FP_ONE <= #[trigger] samples@[j] <= FP_ONE,
            forall|j: int| 0 <= j < n ==> #[trigger] window@[j] <= 65536,
            i <= n,
            out@.len() == i,
            forall|j: int|
                0 <= j < i ==> #[trigger] out@[j] == windowed_spec(
                    samples@[j] as int,
                    window@[j] as int,
                ),
            forall|j: int| 0 <= j < i ==> -FP_ONE <= #[trigger] out@[j] <= FP_ONE,
        decreases n - i,
    {
        let s = samples[i];
        let wc = window[i];
        let v: i64 = if s >= 0 {
            proof {
                assert(s * wc <= 0x1_0000_0000_0000 && (s * wc) / 65536 <= s)
                    by (nonlinear_arith)
                    requires
                        0 <= s <= 65536,
                        0 <= wc <= 65536,
                ;
            }
            let p = ((s as u64) * wc) / 65536;
            p as i64
        } else {
            proof {
                assert((-s) * wc <= 0x1_0000_0000_0000 && ((-s) * wc) / 65536 <= -s)
                    by (nonlinear_arith)
                    requires
                        -65536 <= s < 0,
                        0 <= wc <= 65536,
                ;
            }
            let p = (((-s) as u64) * wc) / 65536;
            -(p as i64)
        };
        out.push(v);
        i = i + 1;
    }
    out
}

/// Power of one transform bin in Q16.16: `(re^2 + im^2) / n^2`, with both
/// parts Q16.16 amplitudes, so the spectral energy is independent of the
/// transform size.
pub open spec fn power_bin_spec(re: int, im: int, n: int) -> int {
    (re * re + im * im) / (n * n * 65536)
}

/// Normalize the complex transform output into a half-length power
/// spectrum.
pub fn power_spectrum(re: &Vec<i64>, im: &Vec<i64>, n: usize) -> (p: Vec<i64>)
    requires
        2 <= n <= 8192,
        re@.len() == n,
        im@.len() == n,
        bounded_by(re@, n as int * FP_ONE),
        bounded_by(im@, n as int * FP_ONE),
    ensures
        p@.len() == n / 2,
        forall|i: int|
            0 <= i < n / 2 ==> #[trigger] p@[i] == power_bin_spec(
                re@[i] as int,
                im@[i] as int,
                n as int,
            ),
        forall|i: int| 0 <= i < n / 2 ==> 0 <= #[trigger] p@[i] <= 2 * FP_ONE,
{
    let half = n / 2;
    proof {
        assert(65536 <= (n as int) * (n as int) * 65536 <= 0x400_0000_0000) by (nonlinear_arith)
            requires
                2 <= n <= 8192,
        ;
    }
    let d = ((n as u64) * (n as u64)) * 65536;
    let mut p: Vec<i64> = Vec::new();
    let mut i: usize = 0;
    while i < half
        invariant
            2 <= n <= 8192,
            half == n / 2,
            re@.len() == n,
            im@.len() == n,
            d == n * n * 65536,
            d >= 65536,
            bounded_by(re@, n as int * FP_ONE),
            bounded_by(im@, n as int * FP_ONE),
            i <= half,
            p@.len() == i,
            forall|j: int|
                0 <= j < i ==> #[trigger] p@[j] == power_bin_spec(
                    re@[j] as int,
                    im@[j] as int,
                    n as int,
                ),
            forall|j: int| 0 <= j < i ==> 0 <= #[trigger] p@[j] <= 2 * FP_ONE,
        decreases half - i,
    {
        let rv = re[i];
        let iv = im[i];
        proof {
            assert(-(n as int * FP_ONE) <= rv <= n as int * FP_ONE);
            assert(-(n as int * FP_ONE) <= iv <= n as int * FP_ONE);
            assert(rv * rv <= (n * FP_ONE) * (n * FP_ONE) && 0 <= rv * rv) by (nonlinear_arith)
                requires
                    -(n * FP_ONE) <= rv <= n * FP_ONE,
            ;
            assert(iv * iv <= (n * FP_ONE) * (n * FP_ONE) && 0 <= iv * iv) by (nonlinear_arith)
                requires
                    -(n * FP_ONE) <= iv <= n * FP_ONE,
            ;
            assert((n * FP_ONE) * (n * FP_ONE) <= 0x1000_0000_0000_0000) by (nonlinear_arith)
                requires
                    2 <= n <= 8192,
                    FP_ONE == 65536,
            ;
            assert((rv * rv + iv * iv) / (n * n * 65536) <= 2 * 65536) by (nonlinear_arith)
                requires
                    0 <= rv * rv + iv * iv <= 2 * ((n * 65536) * (n * 65536)),
                    2 <= n <= 8192,
            ;
        }
        let rr = ((rv as i128) * (rv as i128)) as u64;
        let ii = ((iv as i128) * (iv as i128)) as u64;
        p.push(((rr + ii) / d) as i64);
        i = i + 1;
    }
    p
}

/// Sum of squared samples, for specifications.
pub open spec fn sum_squares(s: Seq<i64>) -> int
    decreases s.len(),
{
    if s.len() == 0 {
        0
    } else {
        sum_squares(s.drop_last()) + s.last() * s.last()
    }
}

proof fn lemma_sum_squares_bounds(s: Seq<i64>)
    requires
        forall|i: int| 0 <= i < s.len() ==> -FP_ONE <= #[trigger] s[i] <= FP_ONE,
    ensures
        0 <= sum_squares(s) <= s.len() * FP_ONE * FP_ONE,
    decreases s.len(),
{
    if s.len() > 0 {
        lemma_sum_squares_bounds(s.drop_last());
        assert(0 <= s.last() * s.last() <= FP_ONE * FP_ONE) by (nonlinear_arith)
            requires
                -FP_ONE <= s.last() <= FP_ONE,
                FP_ONE == 65536,
        ;
        assert((s.len() - 1) * FP_ONE * FP_ONE + FP_ONE * FP_ONE == s.len() * FP_ONE * FP_ONE)
            by (nonlinear_arith);
    }
}

/// Mean power of a frame in Q16.16: the average squared sample.
pub open spec fn mean_power_spec(s: Seq<i64>) -> int {
    sum_squares(s) / (s.len() * 65536) as int
}

/// Mean squared sample of a frame, Q16.16.
pub fn mean_power(samples: &Vec<i64>) -> (r: i64)
    requires
        1 <= samples@.len() <= 0x10_0000,
        forall|i: int| 0 <= i < samples@.len() ==> -FP_ONE <= #[trigger] samples@[i] <= FP_ONE,
    ensures
        r == mean_power_spec(samples@),
        0 <= r <= FP_ONE,
{
    let n = samples.len();
    let mut sum: u64 = 0;
    let mut i: usize = 0;
    while i < n
        invariant
            n == samples@.len(),
            1 <= n <= 0x10_0000,
            forall|j: int| 0 <= j < n ==> -FP_ONE <= #[trigger] samples@[j] <= FP_ONE,
            i <= n,
            sum == sum_squares(samples@.subrange(0, i as int)),
            sum <= i * FP_ONE * FP_ONE,
        decreases n - i,
    {
        let s = samples[i];
        proof {
            assert(0 <= s * s <= FP_ONE * FP_ONE) by (nonlinear_arith)
                requires
                    -FP_ONE <= s <= FP_ONE,
                    FP_ONE == 65536,
            ;
            assert(i * FP_ONE * FP_ONE + FP_ONE * FP_ONE == (i + 1) * FP_ONE * FP_ONE)
                by (nonlinear_arith);
            assert(n * FP_ONE * FP_ONE <= 0x10_0000 * 0x1_0000_0000) by (nonlinear_arith)
                requires
                    n <= 0x10_0000,
                    FP_ONE == 65536,
            ;
            let sub = samples@.subrange(0, i + 1);
            assert(sub.drop_last() =~= samples@.subrange(0, i as int));
            assert(sub.last() == samples@[i as int]);
        }
        let sq = ((s as i128) * (s as i128)) as u64;
        sum = sum + sq;
        i = i + 1;
    }
    proof {
        assert(samples@.subrange(0, n as int) =~= samples@);
        lemma_sum_squares_bounds(samples@);
        assert(sum_squares(samples@) / (n * 65536) <= FP_ONE) by (nonlinear_arith)
            requires
                0 <= sum_squares(samples@) <= n * FP_ONE * FP_ONE,
                1 <= n,
                FP_ONE == 65536,
        ;
    }
    (sum / ((n as u64) * 65536)) as i64
}

/// Average two equally long frames sample by sample.
pub fn mix_halves(a: &Vec<i64>, b: &Vec<i64>) -> (out: Vec<i64>)
    requires
        a@.len() == b@.len(),
        forall|i: int| 0 <= i < a@.len() ==> -FP_ONE <= #[trigger] a@[i] <= FP_ONE,
        forall|i: int| 0 <= i < b@.len() ==> -FP_ONE <= #[trigger] b@[i] <= FP_ONE,
    ensures
        out@.len() == a@.len(),
        forall|i: int| 0 <= i < out@.len() ==> #[trigger] out@[i] == (a@[i] + b@[i]) / 2,
        forall|i: int| 0 <= i < out@.len() ==> -FP_ONE <= #[trigger] out@[i] <= FP_ONE,
{
    let n = a.len();
    let mut out: Vec<i64> = Vec::new();
    let mut i: usize = 0;
    while i < n
        invariant
            n == a@.len() == b@.len(),
            forall|j: int| 0 <= j < n ==> -FP_ONE <= #[trigger] a@[j] <= FP_ONE,
            forall|j: int| 0 <= j < n ==> -FP_ONE <= #[trigger] b@[j] <= FP_ONE,
            i <= n,
            out@.len() == i,
            forall|j: int| 0 <= j < i ==> #[trigger] out@[j] == (a@[j] + b@[j]) / 2,
            forall|j: int| 0 <= j < i ==> -FP_ONE <= #[trigger] out@[j] <= FP_ONE,
        decreases n - i,
    {
        let v = floor_div(a[i] + b[i], 2);
        out.push(v);
        i = i + 1;
    }
    out
}

/// Sum of a sequence of samples, for specifications.
pub open spec fn sum_seq(s: Seq<i64>) -> int
    decreases s.len(),
{
    if s.len() == 0 {
        0
    } else {
        sum_seq(s.drop_last()) + s.last()
    }
}

/// Average the channels of one interleaved frame into a mono sample,
/// rounding toward minus infinity.
pub fn downmix_frame(frame: &Vec<i64>) -> (r: i64)
    requires
        1 <= frame@.len() <= 64,
        forall|i: int| 0 <= i < frame@.len() ==> -FP_ONE <= #[trigger] frame@[i] <= FP_ONE,
    ensures
        r == sum_seq(frame@) / (frame@.len() as int),
        -FP_ONE <= r <= FP_ONE,
{
    let n = frame.len();
    let mut sum: i64 = 0;
    let mut i: usize = 0;
    while i < n
        invariant
            n == frame@.len(),
            1 <= n <= 64,
            forall|j: int| 0 <= j < n ==> -FP_ONE <= #[trigger] frame@[j] <= FP_ONE,
            i <= n,
            sum == sum_seq(frame@.subrange(0, i as int)),
            -(i * FP_ONE) <= sum <= i * FP_ONE,
        decreases n - i,
    {
        proof {
            let sub = frame@.subrange(0, i + 1);
            assert(sub.drop_last() =~= frame@.subrange(0, i as int));
            assert(sub.last() == frame@[i as int]);
        }
        sum = sum + frame[i];
        i = i + 1;
    }
    proof {
        assert(frame@.subrange(0, n as int) =~= frame@);
    }
    let r = floor_div(sum, n as i64);
    proof {
        assert(-FP_ONE <= r <= FP_ONE) by (nonlinear_arith)
            requires
                -(n * FP_ONE) <= sum <= n * FP_ONE,
                1 <= n,
                (n as int) * (r as int) <= sum < (n as int) * (r as int + 1),
                FP_ONE == 65536,
        ;
    }
    r
}

/// The EMA coefficient `1 - exp(-dt/tau)` for a time constant and frame
/// interval in milliseconds, Q16.16.
pub open spec fn coeff_spec(tau_ms: int, dt_ms: int) -> int {
    65536 - exp_decay_spec(((dt_ms * 65536) / tau_ms) as nat)
}

/// One exponential-moving-average step with an explicit time constant:
/// `prev + (x - prev) * (1 - exp(-dt/tau))`.
pub fn ema_tc(prev: i64, x: i64, tau_ms: u32, dt_ms: u32) -> (r: i64)
    requires
        1 <= tau_ms <= 60000,
        1 <= dt_ms <= 60000,
        -0x100_0000_0000 <= prev <= 0x100_0000_0000,
        -0x100_0000_0000 <= x <= 0x100_0000_0000,
    ensures
        r == ema_step_spec(prev as int, x as int, coeff_spec(tau_ms as int, dt_ms as int)),
        prev <= x ==> prev <= r <= x,
        x <= prev ==> x <= r <= prev,
{
    let rate = ((dt_ms as u64) * 65536) / (tau_ms as u64);
    let decay = exp_decay_fp(rate);
    ema_step(prev, x, (65536 - decay) as i64)
}

/// An EMA fed one constant input converges to that input exactly, for
/// any frame interval at least 1/256 of the time constant: after at most
/// `|prev - x|` frames the smoothed value equals `x`, whatever `dt` was.
pub proof fn lemma_ema_tc_converges(prev: int, x: int, tau_ms: int, dt_ms: int, n: nat)
    requires
        1 <= tau_ms,
        1 <= dt_ms,
        256 * tau_ms <= 65536 * dt_ms,
        n >= crate::num::abs_int(prev - x),
    ensures
        crate::num::ema_run_spec(prev, x, coeff_spec(tau_ms, dt_ms), n) == x,
{
    lemma_coeff_positive(tau_ms, dt_ms);
    crate::num::lemma_ema_run_converges(prev, x, coeff_spec(tau_ms, dt_ms), n);
}

/// When the frame interval is at least 1/256 of the time constant, the
/// EMA coefficient is positive, so repeated steps toward a constant input
/// reach it exactly (see `lemma_ema_converges`), whatever the interval.
pub proof fn lemma_coeff_positive(tau_ms: int, dt_ms: int)
    requires
        1 <= tau_ms,
        1 <= dt_ms,
        256 * tau_ms <= 65536 * dt_ms,
    ensures
        1 <= coeff_spec(tau_ms, dt_ms) <= 65536,
{
    let rate = (dt_ms * 65536) / tau_ms;
    vstd::arithmetic::div_mod::lemma_div_is_ordered(256 * tau_ms, dt_ms * 65536, tau_ms);
    vstd::arithmetic::div_mod::lemma_div_by_multiple(256, tau_ms);
    lemma_exp_decay_drops(rate as nat);
}

/// Restatement of the decay bounds for spec-level rates.
proof fn lemma_exp_decay_drops(r: nat)
    requires
        r >= 256,
    ensures
        exp_decay_spec(r) < 65536,
{
    let d = r / 256;
    if d >= 65536 {
    } else {
        crate::num::lemma_fp_square_n_le((65536 - d) as nat, 8);
    }
}

} // verus!
