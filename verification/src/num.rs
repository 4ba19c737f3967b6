//! Integer primitives for the Q16.16 fixed-point arithmetic used by the
//! whole pipeline: floor division, integer square root, a piecewise-linear
//! base-two logarithm, and the exponential-decay factor behind every
//! exponential moving average.

use vstd::prelude::*;

verus! {

/// One (1.0) in Q16.16 fixed point.
pub const FP_ONE: i64 = 65536;

/// Milli-decibel value reported for zero power, below every usable gate
/// threshold.
pub const MDB_FLOOR: i64 = -120000;

/// Floor of `n / d` for a positive divisor, as the unique `q` with
/// `d*q <= n < d*(q+1)`.
pub fn floor_div(n: i64, d: i64) -> (q: i64)
    requires
        0 < d,
        -0x2000_0000_0000_0000 <= n <= 0x2000_0000_0000_0000,
        d <= 0x2000_0000_0000_0000,
    ensures
        d * q <= n < d * (q + 1),
        q == n / d,
{
    if n >= 0 {
        let q = ((n as u64) / (d as u64)) as i64;
        proof {
            assert(d * q <= n < d * (q + 1)) by (nonlinear_arith)
                requires
                    n >= 0,
                    d > 0,
                    q == n / d,
            ;
        }
        q
    } else {
        let m = (-n) as u64;
        // ceiling of m / d, negated, is the floor of n / d
        let qc = ((m + (d as u64) - 1) / (d as u64)) as i64;
        proof {
            assert(d * (-qc) <= n < d * ((-qc) + 1)) by (nonlinear_arith)
                requires
                    n < 0,
                    0 < d <= 0x2000_0000_0000_0000,
                    m == -n,
                    m <= 0x2000_0000_0000_0000,
                    qc == ((m + d - 1) as int) / (d as int),
            ;
        assert(-qc == n / d) by (nonlinear_arith)
            requires
                d * (-qc) <= n < d * ((-qc) + 1),
                d > 0,
        ;
        }
        -qc
    }
}

/// Integer square root: the unique `r` with `r*r <= x < (r+1)*(r+1)`.
pub fn isqrt(x: u64) -> (r: u64)
    requires
        x < 0x4000_0000_0000_0000,
    ensures
        r * r <= x,
        x < (r + 1) * (r + 1),
        r == isqrt_spec(x as nat),
{
    let mut lo: u64 = 0;
    let mut hi: u64 = 0x8000_0000;
    proof {
        assert((0x8000_0000u64 as int) * (0x8000_0000u64 as int) > x as int) by (nonlinear_arith)
            requires
                x < 0x4000_0000_0000_0000,
        ;
    }
    while lo + 1 < hi
        invariant
            lo < hi <= 0x8000_0000,
            lo * lo <= x,
            x < hi * hi,
        decreases hi - lo,
    {
        let mid = lo + (hi - lo) / 2;
        proof {
            assert(mid * mid <= 0x4000_0000_0000_0000) by (nonlinear_arith)
                requires
                    mid <= 0x8000_0000,
            ;
        }
        if mid * mid <= x {
            lo = mid;
        } else {
            hi = mid;
        }
    }
    proof {
        lemma_isqrt_unique(x as nat, lo as nat);
    }
    lo
}

/// Mathematical ceiling square root.
pub open spec fn ceil_sqrt_spec(x: nat) -> nat {
    let r = isqrt_spec(x);
    if r * r < x {
        r + 1
    } else {
        r
    }
}

/// Integer square root rounded up: the least `r` with `r*r >= x`.
pub fn sqrt_up(x: u64) -> (r: u64)
    requires
        x < 0x4000_0000_0000_0000,
    ensures
        r * r >= x,
        r >= 1 ==> (r - 1) * (r - 1) < x,
        r <= 0x8000_0000,
        r == ceil_sqrt_spec(x as nat),
{
    let r = isqrt(x);
    if r * r < x {
        proof {
            assert(r < 0x8000_0000) by (nonlinear_arith)
                requires
                    r * r < x < 0x4000_0000_0000_0000,
            ;
        }
        r + 1
    } else {
        proof {
            assert(r <= 0x8000_0000 && (r >= 1 ==> (r - 1) * (r - 1) < r * r)) by (nonlinear_arith)
                requires
                    r * r <= x < 0x4000_0000_0000_0000,
            ;
        }
        r
    }
}

/// Mathematical integer square root, defined by counting up.
pub open spec fn isqrt_spec(x: nat) -> nat
    decreases x,
{
    if x == 0 {
        0
    } else {
        let r = isqrt_spec((x - 1) as nat);
        if (r + 1) * (r + 1) <= x {
            r + 1
        } else {
            r
        }
    }
}

pub proof fn lemma_isqrt_spec_bounds(x: nat)
    ensures
        isqrt_spec(x) * isqrt_spec(x) <= x,
        x < (isqrt_spec(x) + 1) * (isqrt_spec(x) + 1),
    decreases x,
{
    if x == 0 {
        assert(isqrt_spec(0) == 0);
        assert((isqrt_spec(0) + 1) * (isqrt_spec(0) + 1) == 1) by (nonlinear_arith)
            requires
                isqrt_spec(0) == 0,
        ;
    } else {
        lemma_isqrt_spec_bounds((x - 1) as nat);
        let r = isqrt_spec((x - 1) as nat);
        assert(isqrt_spec(x) == if (r + 1) * (r + 1) <= x {
            r + 1
        } else {
            r
        });
        if (r + 1) * (r + 1) <= x {
            assert(x < (r + 2) * (r + 2)) by (nonlinear_arith)
                requires
                    x - 1 < (r + 1) * (r + 1),
            ;
            assert(isqrt_spec(x) * isqrt_spec(x) == (r + 1) * (r + 1));
            assert((isqrt_spec(x) + 1) * (isqrt_spec(x) + 1) == (r + 2) * (r + 2));
        } else {
            assert(r * r <= x - 1 <= x);
            assert(isqrt_spec(x) * isqrt_spec(x) == r * r);
            assert((isqrt_spec(x) + 1) * (isqrt_spec(x) + 1) == (r + 1) * (r + 1));
        }
    }
}

/// Any `r` in the square-root window equals `isqrt_spec(x)`.
pub proof fn lemma_isqrt_unique(x: nat, r: nat)
    requires
        r * r <= x,
        x < (r + 1) * (r + 1),
    ensures
        r == isqrt_spec(x),
{
    lemma_isqrt_spec_bounds(x);
    let s = isqrt_spec(x);
    assert(r == s) by (nonlinear_arith)
        requires
            r * r <= x < (r + 1) * (r + 1),
            s * s <= x < (s + 1) * (s + 1),
    ;
}

/// The integer square root is monotone.
pub proof fn lemma_isqrt_monotone(a: nat, b: nat)
    requires
        a <= b,
    ensures
        isqrt_spec(a) <= isqrt_spec(b),
{
    lemma_isqrt_spec_bounds(a);
    lemma_isqrt_spec_bounds(b);
    let ra = isqrt_spec(a);
    let rb = isqrt_spec(b);
    assert(ra <= rb) by (nonlinear_arith)
        requires
            ra * ra <= a < (ra + 1) * (ra + 1),
            rb * rb <= b < (rb + 1) * (rb + 1),
            a <= b,
    ;
}

/// Two to the power `e`.
pub open spec fn pow2(e: nat) -> nat
    decreases e,
{
    if e == 0 {
        1
    } else {
        2 * pow2((e - 1) as nat)
    }
}

/// Floor of the base-two logarithm of a positive integer.
pub open spec fn floor_log2(x: nat) -> nat
    decreases x,
{
    if x < 2 {
        0
    } else {
        1 + floor_log2(x / 2)
    }
}

pub proof fn lemma_floor_log2_bounds(x: nat)
    requires
        x >= 1,
    ensures
        pow2(floor_log2(x)) <= x,
        x < 2 * pow2(floor_log2(x)),
    decreases x,
{
    if x >= 2 {
        lemma_floor_log2_bounds(x / 2);
    }
}

pub proof fn lemma_floor_log2_unique(x: nat, e: nat)
    requires
        pow2(e) <= x,
        x < 2 * pow2(e),
    ensures
        e == floor_log2(x),
    decreases e,
{
    if e == 0 {
        if x >= 2 {
            lemma_floor_log2_bounds(x);
            lemma_pow2_monotone(1, floor_log2(x));
        }
    } else {
        lemma_floor_log2_unique(x / 2, (e - 1) as nat);
    }
}

pub proof fn lemma_pow2_monotone(a: nat, b: nat)
    requires
        a <= b,
    ensures
        pow2(a) <= pow2(b),
    decreases b,
{
    if a < b {
        lemma_pow2_monotone(a, (b - 1) as nat);
    }
}

/// Piecewise-linear base-two logarithm in Q16.16: exact on powers of two,
/// linear in between.
pub open spec fn pl_log2_spec(x: nat) -> int {
    let e = floor_log2(x);
    e * 65536 + ((x - pow2(e)) * 65536) / (pow2(e) as int)
}

/// Piecewise-linear base-two logarithm of a positive value, Q16.16.
pub fn pl_log2(x: u64) -> (r: u64)
    requires
        1 <= x < 0x100_0000_0000,
    ensures
        r == pl_log2_spec(x as nat),
        r < 41 * 65536,
{
    let mut e: u64 = 0;
    let mut p: u64 = 1;
    while p * 2 <= x
        invariant
            1 <= x < 0x100_0000_0000,
            p == pow2(e as nat),
            1 <= p <= x,
            e <= 40,
        decreases x - p,
    {
        proof {
            if e >= 40 {
                lemma_pow2_monotone(40, e as nat);
                assert(pow2(40) == 0x100_0000_0000) by {
                    reveal_with_fuel(pow2, 41);
                }
            }
        }
        p = p * 2;
        e = e + 1;
    }
    proof {
        lemma_floor_log2_unique(x as nat, e as nat);
        assert(((x - p) as nat) * 65536 < p * 65536) by (nonlinear_arith)
            requires
                p <= x < 2 * p,
        ;
        assert((((x - p) as nat) * 65536) / (p as nat) < 65536) by (nonlinear_arith)
            requires
                ((x - p) as nat) * 65536 < p * 65536,
                p >= 1,
        ;
    }
    e * 65536 + ((x - p) * 65536) / p
}

/// Milli-decibels of a Q16.16 power value: `10 * log10(x / 2^16) * 1000`,
/// through the piecewise-linear logarithm, floored at `MDB_FLOOR` for zero.
pub open spec fn mdb_spec(x: nat) -> int {
    if x == 0 {
        MDB_FLOOR as int
    } else {
        (pl_log2_spec(x) - 16 * 65536) * 3010 / 65536
    }
}

/// Milli-decibels of a Q16.16 power value.
pub fn mdb_of(x: u64) -> (r: i64)
    requires
        x < 0x100_0000_0000,
    ensures
        r == mdb_spec(x as nat),
        MDB_FLOOR <= r <= 76000,
{
    if x == 0 {
        MDB_FLOOR
    } else {
        let pl = pl_log2(x) as i64;
        let q = floor_div((pl - 16 * FP_ONE) * 3010, FP_ONE);
        proof {
            let num = ((pl - 16 * 65536) * 3010) as int;
            assert(q == num / 65536) by (nonlinear_arith)
                requires
                    65536 * q <= num < 65536 * (q + 1),
            ;
        }
        q
    }
}

/// One squaring step of the decay iteration.
pub open spec fn fp_square(y: nat) -> nat {
    (y * y) / 65536
}

pub open spec fn fp_square_n(y: nat, n: nat) -> nat
    decreases n,
{
    if n == 0 {
        y
    } else {
        fp_square(fp_square_n(y, (n - 1) as nat))
    }
}

/// The exponential decay factor `exp(-r)` for a Q16.16 rate `r`,
/// approximated as `(1 - r/256)^256` by eight fixed-point squarings.
pub open spec fn exp_decay_spec(r: nat) -> nat {
    if r / 256 >= 65536 {
        0
    } else {
        fp_square_n((65536 - r / 256) as nat, 8)
    }
}

proof fn lemma_fp_square_le(y: nat)
    requires
        y <= 65536,
    ensures
        fp_square(y) <= y,
        y < 65536 ==> fp_square(y) <= y && (y > 0 ==> fp_square(y) < 65536),
{
    assert((y * y) / 65536 <= y && (y < 65536 && y > 0 ==> (y * y) / 65536 < 65536))
        by (nonlinear_arith)
        requires
            y <= 65536,
    ;
}

pub proof fn lemma_fp_square_n_le(y: nat, n: nat)
    requires
        y <= 65536,
    ensures
        fp_square_n(y, n) <= y,
        y < 65536 ==> fp_square_n(y, n) < 65536,
        y == 65536 ==> fp_square_n(y, n) == 65536,
    decreases n,
{
    if n > 0 {
        lemma_fp_square_n_le(y, (n - 1) as nat);
        lemma_fp_square_le(fp_square_n(y, (n - 1) as nat));
        if y < 65536 && fp_square_n(y, (n - 1) as nat) == 0 {
        }
    }
}

/// Exponential decay factor in Q16.16; `r` is the Q16.16 ratio of the
/// elapsed time to the time constant.
pub fn exp_decay_fp(r: u64) -> (y: u64)
    requires
        r < 0x1_0000_0000,
    ensures
        y == exp_decay_spec(r as nat),
        y <= 65536,
        r == 0 ==> y == 65536,
        r >= 256 ==> y < 65536,
{
    let d = r / 256;
    if d >= 65536 {
        proof {
            lemma_fp_square_n_le(0, 8);
        }
        0
    } else {
        let mut y: u64 = 65536 - d;
        let mut i: u64 = 0;
        while i < 8
            invariant
                y == fp_square_n((65536 - d) as nat, i as nat),
                y <= 65536,
                i <= 8,
                d >= 1 ==> y < 65536,
        decreases 8 - i,
        {
            proof {
                lemma_fp_square_le(y as nat);
                assert(fp_square_n((65536 - d) as nat, (i + 1) as nat) == fp_square(
                    fp_square_n((65536 - d) as nat, i as nat),
                ));
            }
            y = (y * y) / 65536;
            i = i + 1;
        }
        proof {
            lemma_fp_square_n_le((65536 - d) as nat, 8);
        }
        y
    }
}

/// One step of an exponential moving average in Q16.16: move `prev`
/// toward `x` by the fraction `coeff`, rounding the step away from zero so
/// a positive coefficient always makes progress.
pub open spec fn ema_step_spec(prev: int, x: int, coeff: int) -> int {
    let diff = x - prev;
    if diff >= 0 {
        prev + (diff * coeff + 65535) / 65536
    } else {
        prev - (((-diff) * coeff + 65535) / 65536)
    }
}

/// One exponential-moving-average step.
pub fn ema_step(prev: i64, x: i64, coeff: i64) -> (r: i64)
    requires
        0 <= coeff <= FP_ONE,
        -0x100_0000_0000 <= prev <= 0x100_0000_0000,
        -0x100_0000_0000 <= x <= 0x100_0000_0000,
    ensures
        r == ema_step_spec(prev as int, x as int, coeff as int),
        prev <= x ==> prev <= r <= x,
        x <= prev ==> x <= r <= prev,
{
    if x >= prev {
        let diff = (x - prev) as u64;
        proof {
            assert(diff * coeff + 65535 < 0x8000_0000_0000_0000) by (nonlinear_arith)
                requires
                    0 <= coeff <= 65536,
                    diff <= 0x200_0000_0000,
            ;
        }
        let step = ((diff * (coeff as u64)) + 65535) / 65536;
        proof {
            assert(step <= diff) by (nonlinear_arith)
                requires
                    0 <= coeff <= 65536,
                    step == ((diff * coeff + 65535) as int) / 65536,
                    diff >= 0,
            ;
        }
        prev + (step as i64)
    } else {
        let diff = (prev - x) as u64;
        proof {
            assert(diff * coeff + 65535 < 0x8000_0000_0000_0000) by (nonlinear_arith)
                requires
                    0 <= coeff <= 65536,
                    diff <= 0x200_0000_0000,
            ;
        }
        let step = ((diff * (coeff as u64)) + 65535) / 65536;
        proof {
            assert(step <= diff) by (nonlinear_arith)
                requires
                    0 <= coeff <= 65536,
                    step == ((diff * coeff + 65535) as int) / 65536,
                    diff >= 0,
            ;
        }
        prev - (step as i64)
    }
}

/// With any positive coefficient, an EMA step strictly shrinks the distance
/// to its input, so a constant input is reached exactly, whatever the frame
/// interval behind the coefficient.
pub proof fn lemma_ema_converges(prev: int, x: int, coeff: int)
    requires
        1 <= coeff <= 65536,
        prev != x,
    ensures
        abs_int(ema_step_spec(prev, x, coeff) - x) < abs_int(prev - x),
{
    let diff = x - prev;
    if diff >= 0 {
        assert(1 <= (diff * coeff + 65535) / 65536 <= diff) by (nonlinear_arith)
            requires
                1 <= coeff <= 65536,
                diff >= 1,
        ;
    } else {
        assert(1 <= ((-diff) * coeff + 65535) / 65536 <= -diff) by (nonlinear_arith)
            requires
                1 <= coeff <= 65536,
                diff <= -1,
        ;
    }
}

/// Repeated EMA steps toward one fixed input.
pub open spec fn ema_run_spec(prev: int, x: int, coeff: int, n: nat) -> int
    decreases n,
{
    if n == 0 {
        prev
    } else {
        ema_step_spec(ema_run_spec(prev, x, coeff, (n - 1) as nat), x, coeff)
    }
}

/// With any positive coefficient, the distance to a constant input
/// shrinks by at least one fixed-point unit per step, so after
/// `|prev - x|` frames the smoothed value equals the input exactly —
/// whatever frame interval produced the coefficient.
pub proof fn lemma_ema_run_converges(prev: int, x: int, coeff: int, n: nat)
    requires
        1 <= coeff <= 65536,
    ensures
        abs_int(ema_run_spec(prev, x, coeff, n) - x) <= abs_int(prev - x) - n
            || ema_run_spec(prev, x, coeff, n) == x,
    decreases n,
{
    if n > 0 {
        lemma_ema_run_converges(prev, x, coeff, (n - 1) as nat);
        let p = ema_run_spec(prev, x, coeff, (n - 1) as nat);
        if p == x {
            assert(ema_step_spec(x, x, coeff) == x);
        } else {
            lemma_ema_converges(p, x, coeff);
        }
    }
}

/// Absolute value, for specifications.
pub open spec fn abs_int(x: int) -> int {
    if x >= 0 {
        x
    } else {
        -x
    }
}

/// Clamp `x` into `[lo, hi]`.
pub open spec fn clamp_spec(x: int, lo: int, hi: int) -> int {
    if x < lo {
        lo
    } else if x > hi {
        hi
    } else {
        x
    }
}

/// Clamp a value into an inclusive range.
pub fn clamp_i64(x: i64, lo: i64, hi: i64) -> (r: i64)
    requires
        lo <= hi,
    ensures
        r == clamp_spec(x as int, lo as int, hi as int),
{
    if x < lo {
        lo
    } else if x > hi {
        hi
    } else {
        x
    }
}

} // verus!
