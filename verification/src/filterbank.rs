//! Perceptually spaced triangular filterbank.
//!
//! Band centers are evenly spaced on a square-root frequency warp between
//! `fmin` and `fmax` (clamped to Nyquist), packing more bands into low
//! frequencies.  Each band weights the transform bins triangularly: zero
//! at its neighbors' centers, one at its own.  A band whose triangle
//! covers fewer than two bins is widened to two so that no band is ever
//! silent.  The whole construction is a function of its parameters, so
//! rebuilding with the same parameters yields the same bands.

use vstd::prelude::*;

use crate::num::{isqrt, isqrt_spec};

verus! {

/// One band: a dense weight per transform bin, Q16.16.
pub struct Band {
    pub w: Vec<u64>,
}

/// The square-root frequency warp of `f` Hz, in units of
/// `sqrt(Hz / 4096)`.
pub open spec fn warp_spec(f_hz: int) -> int {
    isqrt_spec((f_hz * 4096) as nat) as int
}

/// The warp of transform bin `i`, whose frequency is `i * sr / n` Hz.
pub open spec fn bin_warp_spec(i: int, sr: int, n: int) -> int {
    isqrt_spec(((i * sr * 4096) / n) as nat) as int
}

/// The upper frequency edge after clamping to Nyquist.
pub open spec fn fmax_eff_spec(sr: int, fmax: int) -> int {
    if fmax <= sr / 2 {
        fmax
    } else {
        sr / 2
    }
}

pub open spec fn w_lo_spec(fmin: int) -> int {
    warp_spec(fmin)
}

pub open spec fn w_hi_spec(sr: int, fmax: int) -> int {
    warp_spec(fmax_eff_spec(sr, fmax))
}

/// Whether the warp range is wide enough to give every band its own
/// center; otherwise centers fall back to unit spacing.
pub open spec fn wide_gap_spec(sr: int, bands: int, fmin: int, fmax: int) -> bool {
    w_hi_spec(sr, fmax) - w_lo_spec(fmin) >= bands + 1
}

/// Center `k` on the warp axis, for `k` from `-1` (the lower edge) to
/// `bands` (the upper edge).
pub open spec fn center_spec(sr: int, bands: int, fmin: int, fmax: int, k: int) -> int {
    let lo = w_lo_spec(fmin);
    let hi = w_hi_spec(sr, fmax);
    if wide_gap_spec(sr, bands, fmin, fmax) {
        lo + ((k + 1) * (hi - lo)) / (bands + 1)
    } else {
        lo + k + 1
    }
}

/// The raw triangular weight of band `k` at bin `i`, Q16.16.
pub open spec fn tri_weight_spec(sr: int, n: int, bands: int, fmin: int, fmax: int, k: int, i: int)
    -> int {
    let wb = bin_warp_spec(i, sr, n);
    let cl = center_spec(sr, bands, fmin, fmax, k - 1);
    let cc = center_spec(sr, bands, fmin, fmax, k);
    let cr = center_spec(sr, bands, fmin, fmax, k + 1);
    if cl < wb <= cc {
        ((wb - cl) * 65536) / (cc - cl)
    } else if cc < wb < cr {
        ((cr - wb) * 65536) / (cr - cc)
    } else {
        0
    }
}

/// How many of the first `upto` bins get a positive triangular weight.
pub open spec fn tri_pos_count(
    sr: int,
    n: int,
    bands: int,
    fmin: int,
    fmax: int,
    k: int,
    upto: nat,
) -> nat
    decreases upto,
{
    if upto == 0 {
        0
    } else {
        tri_pos_count(sr, n, bands, fmin, fmax, k, (upto - 1) as nat) + (if tri_weight_spec(
            sr,
            n,
            bands,
            fmin,
            fmax,
            k,
            upto - 1,
        ) > 0 {
            1nat
        } else {
            0nat
        })
    }
}

/// The first bin from `from` at or above band `k`'s center on the warp
/// axis, capped at `half - 2`; the widened form of a collapsed band
/// peaks here.
pub open spec fn peak_bin_spec(
    sr: int,
    n: int,
    bands: int,
    fmin: int,
    fmax: int,
    k: int,
    half: int,
    from: int,
) -> int
    decreases half - 2 - from,
{
    if from >= half - 2 {
        half - 2
    } else if bin_warp_spec(from, sr, n) >= center_spec(sr, bands, fmin, fmax, k) {
        from
    } else {
        peak_bin_spec(sr, n, bands, fmin, fmax, k, half, from + 1)
    }
}

/// The weight band `k` finally gives bin `i`: the triangle when it
/// covers at least two bins, else the two-bin widened form.
pub open spec fn band_weight_spec(
    sr: int,
    n: int,
    bands: int,
    fmin: int,
    fmax: int,
    k: int,
    i: int,
) -> int {
    let half = n / 2;
    if tri_pos_count(sr, n, bands, fmin, fmax, k, half as nat) >= 2 {
        tri_weight_spec(sr, n, bands, fmin, fmax, k, i)
    } else {
        let j = peak_bin_spec(sr, n, bands, fmin, fmax, k, half, 0);
        if i == j {
            65536
        } else if i == j + 1 {
            32768
        } else {
            0
        }
    }
}

/// Some two distinct bins both carry positive weight.
pub open spec fn has_two_positive(w: Seq<u64>) -> bool {
    exists|i: int, j: int| 0 <= i < j < w.len() && w[i] > 0 && w[j] > 0
}

/// Sum of a band's weights.
pub open spec fn sum_weights(w: Seq<u64>) -> int
    decreases w.len(),
{
    if w.len() == 0 {
        0
    } else {
        sum_weights(w.drop_last()) + w.last()
    }
}

/// A band with two positive bounded weights has a positive, bounded
/// weight sum.
pub proof fn lemma_sum_weights_positive(w: Seq<u64>)
    requires
        has_two_positive(w),
        forall|i: int| 0 <= i < w.len() ==> #[trigger] w[i] <= 65536,
    ensures
        0 < sum_weights(w) <= w.len() * 65536,
{
    let (i, j) = choose|i: int, j: int| 0 <= i < j < w.len() && w[i] > 0 && w[j] > 0;
    lemma_sum_weights_lower(w, i);
    lemma_sum_weights_upper(w);
}

proof fn lemma_sum_weights_lower(w: Seq<u64>, i: int)
    requires
        0 <= i < w.len(),
        w[i] > 0,
    ensures
        sum_weights(w) >= w[i],
    decreases w.len(),
{
    if i == w.len() - 1 {
        lemma_sum_weights_nonneg(w.drop_last());
    } else {
        lemma_sum_weights_lower(w.drop_last(), i);
    }
}

proof fn lemma_sum_weights_nonneg(w: Seq<u64>)
    ensures
        sum_weights(w) >= 0,
    decreases w.len(),
{
    if w.len() > 0 {
        lemma_sum_weights_nonneg(w.drop_last());
    }
}

proof fn lemma_sum_weights_upper(w: Seq<u64>)
    requires
        forall|i: int| 0 <= i < w.len() ==> #[trigger] w[i] <= 65536,
    ensures
        sum_weights(w) <= w.len() * 65536,
    decreases w.len(),
{
    if w.len() > 0 {
        lemma_sum_weights_upper(w.drop_last());
        assert((w.len() - 1) * 65536 + 65536 == w.len() * 65536) by (nonlinear_arith);
    }
}

/// A positive count of positively weighted bins has a witness.
proof fn lemma_count_witness(sr: int, n: int, bands: int, fmin: int, fmax: int, k: int, upto: nat)
    requires
        tri_pos_count(sr, n, bands, fmin, fmax, k, upto) >= 2,
    ensures
        exists|i: int, j: int|
            0 <= i < j < upto && tri_weight_spec(sr, n, bands, fmin, fmax, k, i) > 0
                && tri_weight_spec(sr, n, bands, fmin, fmax, k, j) > 0,
    decreases upto,
{
    if tri_weight_spec(sr, n, bands, fmin, fmax, k, upto - 1) > 0 {
        if tri_pos_count(sr, n, bands, fmin, fmax, k, (upto - 1) as nat) >= 2 {
            lemma_count_witness(sr, n, bands, fmin, fmax, k, (upto - 1) as nat);
        } else {
            lemma_count_one_witness(sr, n, bands, fmin, fmax, k, (upto - 1) as nat);
            let i = choose|i: int|
                0 <= i < upto - 1 && tri_weight_spec(sr, n, bands, fmin, fmax, k, i) > 0;
            assert(0 <= i < upto - 1 && tri_weight_spec(sr, n, bands, fmin, fmax, k, i) > 0
                && tri_weight_spec(sr, n, bands, fmin, fmax, k, upto - 1) > 0);
        }
    } else {
        lemma_count_witness(sr, n, bands, fmin, fmax, k, (upto - 1) as nat);
    }
}

proof fn lemma_count_one_witness(
    sr: int,
    n: int,
    bands: int,
    fmin: int,
    fmax: int,
    k: int,
    upto: nat,
)
    requires
        tri_pos_count(sr, n, bands, fmin, fmax, k, upto) >= 1,
    ensures
        exists|i: int| 0 <= i < upto && tri_weight_spec(sr, n, bands, fmin, fmax, k, i) > 0,
    decreases upto,
{
    if tri_weight_spec(sr, n, bands, fmin, fmax, k, upto - 1) > 0 {
    } else {
        lemma_count_one_witness(sr, n, bands, fmin, fmax, k, (upto - 1) as nat);
    }
}

/// Rebuilding with identical parameters yields identical bands: any two
/// filterbanks whose weights match the construction's defining function
/// carry the same weights bin for bin — and `build_filterbank` pins its
/// result to exactly that function.
pub proof fn lemma_filterbank_deterministic(
    a: Seq<Band>,
    b: Seq<Band>,
    sr: int,
    n: int,
    bands: int,
    fmin: int,
    fmax: int,
)
    requires
        a.len() == bands,
        b.len() == bands,
        forall|k: int| 0 <= k < bands ==> (#[trigger] a[k].w@.len()) == n / 2,
        forall|k: int| 0 <= k < bands ==> (#[trigger] b[k].w@.len()) == n / 2,
        forall|k: int, i: int|
            0 <= k < bands && 0 <= i < n / 2 ==> (#[trigger] a[k].w@[i]) == band_weight_spec(
                sr,
                n,
                bands,
                fmin,
                fmax,
                k,
                i,
            ),
        forall|k: int, i: int|
            0 <= k < bands && 0 <= i < n / 2 ==> (#[trigger] b[k].w@[i]) == band_weight_spec(
                sr,
                n,
                bands,
                fmin,
                fmax,
                k,
                i,
            ),
    ensures
        forall|k: int| 0 <= k < bands ==> (#[trigger] a[k].w@) == b[k].w@,
{
    assert forall|k: int| 0 <= k < bands implies (#[trigger] a[k].w@) == b[k].w@ by {
        assert(a[k].w@ =~= b[k].w@);
    }
}

/// With a wide warp range the centers are strictly increasing from the
/// lower edge to the upper edge.
pub proof fn lemma_centers_increasing(sr: int, bands: int, fmin: int, fmax: int, k: int)
    requires
        wide_gap_spec(sr, bands, fmin, fmax),
        bands >= 1,
        -1 <= k < bands,
    ensures
        center_spec(sr, bands, fmin, fmax, k) < center_spec(sr, bands, fmin, fmax, k + 1),
{
    let lo = w_lo_spec(fmin);
    let hi = w_hi_spec(sr, fmax);
    let g = hi - lo;
    let d = bands + 1;
    assert(((k + 2) * g) / d >= ((k + 1) * g) / d + 1) by (nonlinear_arith)
        requires
            g >= d,
            d >= 2,
            -1 <= k,
    ;
}

/// On the wide-gap path, every bin a triangle touches lies strictly
/// inside the warp range, so band edges respect `fmin` and the clamped
/// `fmax`.
pub proof fn lemma_tri_band_edges(
    sr: int,
    n: int,
    bands: int,
    fmin: int,
    fmax: int,
    k: int,
    i: int,
)
    requires
        wide_gap_spec(sr, bands, fmin, fmax),
        bands >= 1,
        0 <= k < bands,
        tri_weight_spec(sr, n, bands, fmin, fmax, k, i) > 0,
    ensures
        w_lo_spec(fmin) < bin_warp_spec(i, sr, n) < w_hi_spec(sr, fmax),
{
    let lo = w_lo_spec(fmin);
    let hi = w_hi_spec(sr, fmax);
    let g = hi - lo;
    let d = bands + 1;
    let wb = bin_warp_spec(i, sr, n);
    let cl = center_spec(sr, bands, fmin, fmax, k - 1);
    let cc = center_spec(sr, bands, fmin, fmax, k);
    let cr = center_spec(sr, bands, fmin, fmax, k + 1);
    assert((k * g) / d >= 0) by (nonlinear_arith)
        requires
            g >= 0,
            d >= 2,
            k >= 0,
    ;
    assert(((k + 1) * g) / d >= 0) by (nonlinear_arith)
        requires
            g >= 0,
            d >= 2,
            k >= 0,
    ;
    assert(((k + 1) * g) / d <= g) by (nonlinear_arith)
        requires
            g >= 0,
            d >= 2,
            0 <= k + 1 <= d,
    ;
    assert(((k + 2) * g) / d <= g) by (nonlinear_arith)
        requires
            g >= 0,
            d >= 2,
            0 <= k + 2 <= d,
    ;
    lemma_centers_increasing(sr, bands, fmin, fmax, k);
    lemma_centers_increasing(sr, bands, fmin, fmax, k - 1);
}

/// Center `k` on the warp axis, executable form.
fn center_of(w_lo: u64, w_hi: u64, bands: usize, wide: bool, k: i64) -> (c: i64)
    requires
        w_lo <= 0x20_0000,
        w_hi <= 0x20_0000,
        1 <= bands <= 4096,
        -1 <= k <= bands + 1,
        wide ==> w_hi >= w_lo,
    ensures
        c == (if wide {
            w_lo + ((k + 1) * (w_hi - w_lo)) / (bands + 1)
        } else {
            w_lo + k + 1
        }),
        0 <= c <= 0x80_0000,
{
    if wide {
        let g = (w_hi - w_lo) as i64;
        proof {
            assert(0 <= ((k + 1) * g) / ((bands + 1) as int) <= 2 * g && (k + 1) * g
                <= 0x1_0000_0000_0000) by (nonlinear_arith)
                requires
                    0 <= k + 1 <= bands + 2,
                    0 <= g <= 0x20_0000,
                    1 <= bands <= 4096,
            ;
        }
        (w_lo as i64) + ((k + 1) * g) / ((bands as i64) + 1)
    } else {
        (w_lo as i64) + k + 1
    }
}

/// Build the filterbank: one band per display bar.
pub fn build_filterbank(sr: u32, n: usize, bands: usize, fmin: u32, fmax: u32) -> (fb: Vec<Band>)
    requires
        16 <= n <= 8192,
        1 <= bands,
        bands + 2 <= n / 2,
        200 <= sr <= 192000,
        1 <= fmin <= 1000,
        fmin < fmax <= 24000,
    ensures
        fb@.len() == bands,
        forall|k: int| 0 <= k < bands ==> #[trigger] fb@[k].w@.len() == n / 2,
        forall|k: int, i: int|
            0 <= k < bands && 0 <= i < n / 2 ==> #[trigger] fb@[k].w@[i] == band_weight_spec(
                sr as int,
                n as int,
                bands as int,
                fmin as int,
                fmax as int,
                k,
                i,
            ),
        forall|k: int, i: int|
            0 <= k < bands && 0 <= i < n / 2 ==> #[trigger] fb@[k].w@[i] <= 65536,
        forall|k: int| 0 <= k < bands ==> has_two_positive(#[trigger] fb@[k].w@),
{
    let half = n / 2;
    // bin warps, precomputed once
    let mut warps: Vec<u64> = Vec::new();
    let mut i: usize = 0;
    while i < half
        invariant
            16 <= n <= 8192,
            half == n / 2,
            200 <= sr <= 192000,
            i <= half,
            warps@.len() == i,
            forall|j: int|
                0 <= j < i ==> #[trigger] warps@[j] == bin_warp_spec(j, sr as int, n as int),
            forall|j: int| 0 <= j < i ==> #[trigger] warps@[j] <= 0x20_0000,
        decreases half - i,
    {
        proof {
            assert((i as int) * (sr as int) * 4096 <= 0x800_0000_0000) by (nonlinear_arith)
                requires
                    0 <= i <= 8192,
                    sr <= 192000,
            ;
            assert(0 <= (i as int) * (sr as int) * 4096 / (n as int) <= 0x2_0000_0000)
                by (nonlinear_arith)
                requires
                    0 <= (i as int) * (sr as int) * 4096 <= 0x800_0000_0000,
                    2 * i <= n,
                    sr <= 192000,
                    n >= 16,
            ;
        }
        let f_scaled = ((i as u64) * (sr as u64) * 4096) / (n as u64);
        let wv = isqrt(f_scaled);
        proof {
            assert(wv <= 0x20_0000) by (nonlinear_arith)
                requires
                    wv * wv <= 0x2_0000_0000,
            ;
        }
        warps.push(wv);
        i = i + 1;
    }
    let w_lo = isqrt((fmin as u64) * 4096);
    let fmax_c = if fmax <= sr / 2 {
        fmax
    } else {
        sr / 2
    };
    let w_hi = isqrt((fmax_c as u64) * 4096);
    proof {
        assert(w_lo == w_lo_spec(fmin as int));
        assert(w_hi == w_hi_spec(sr as int, fmax as int));
        if w_hi >= w_lo + bands + 1 {
            assert(wide_gap_spec(sr as int, bands as int, fmin as int, fmax as int));
        }
        assert(w_lo * w_lo <= 1000 * 4096);
        assert(w_lo <= 0x20_0000) by (nonlinear_arith)
            requires
                w_lo * w_lo <= 1000 * 4096,
        ;
        assert(w_hi * w_hi <= 24000 * 4096);
        assert(w_hi <= 0x20_0000) by (nonlinear_arith)
            requires
                w_hi * w_hi <= 24000 * 4096,
        ;
    }
    let wide = w_hi >= w_lo + (bands as u64) + 1;
    let mut fb: Vec<Band> = Vec::new();
    let mut k: usize = 0;
    while k < bands
        invariant
            16 <= n <= 8192,
            half == n / 2,
            1 <= bands,
            bands + 2 <= half,
            200 <= sr <= 192000,
            1 <= fmin <= 1000,
            fmin < fmax <= 24000,
            warps@.len() == half,
            forall|j: int|
                0 <= j < half ==> #[trigger] warps@[j] == bin_warp_spec(j, sr as int, n as int),
            forall|j: int| 0 <= j < half ==> #[trigger] warps@[j] <= 0x20_0000,
            w_lo == w_lo_spec(fmin as int),
            w_hi == w_hi_spec(sr as int, fmax as int),
            w_lo <= 0x20_0000,
            w_hi <= 0x20_0000,
            wide == wide_gap_spec(sr as int, bands as int, fmin as int, fmax as int),
            wide == (w_hi >= w_lo + bands + 1),
            k <= bands,
            fb@.len() == k,
            forall|kk: int| 0 <= kk < k ==> #[trigger] fb@[kk].w@.len() == half,
            forall|kk: int, j: int|
                0 <= kk < k && 0 <= j < half ==> #[trigger] fb@[kk].w@[j] == band_weight_spec(
                    sr as int,
                    n as int,
                    bands as int,
                    fmin as int,
                    fmax as int,
                    kk,
                    j,
                ),
            forall|kk: int, j: int| 0 <= kk < k && 0 <= j < half ==> #[trigger] fb@[kk].w@[j]
                <= 65536,
            forall|kk: int| 0 <= kk < k ==> has_two_positive(#[trigger] fb@[kk].w@),
        decreases bands - k,
    {
        let cl = center_of(w_lo, w_hi, bands, wide, (k as i64) - 1);
        let cc = center_of(w_lo, w_hi, bands, wide, k as i64);
        let cr = center_of(w_lo, w_hi, bands, wide, (k as i64) + 1);
        proof {
            assert(cl == center_spec(
                sr as int,
                bands as int,
                fmin as int,
                fmax as int,
                k as int - 1,
            ));
            assert(cc == center_spec(sr as int, bands as int, fmin as int, fmax as int, k as int));
            assert(cr == center_spec(
                sr as int,
                bands as int,
                fmin as int,
                fmax as int,
                k as int + 1,
            ));
        }
        // first pass: the raw triangle
        let mut w: Vec<u64> = Vec::new();
        let mut count: usize = 0;
        let mut i2: usize = 0;
        while i2 < half
            invariant
                16 <= n <= 8192,
                half == n / 2,
                warps@.len() == half,
                forall|j: int|
                    0 <= j < half ==> #[trigger] warps@[j] == bin_warp_spec(j, sr as int, n as int),
                forall|j: int| 0 <= j < half ==> #[trigger] warps@[j] <= 0x20_0000,
                cl == center_spec(sr as int, bands as int, fmin as int, fmax as int, k as int - 1),
                cc == center_spec(sr as int, bands as int, fmin as int, fmax as int, k as int),
                cr == center_spec(sr as int, bands as int, fmin as int, fmax as int, k as int + 1),
                0 <= cl <= 0x80_0000,
                0 <= cc <= 0x80_0000,
                0 <= cr <= 0x80_0000,
                i2 <= half,
                w@.len() == i2,
                count <= i2,
                forall|j: int|
                    0 <= j < i2 ==> #[trigger] w@[j] == tri_weight_spec(
                        sr as int,
                        n as int,
                        bands as int,
                        fmin as int,
                        fmax as int,
                        k as int,
                        j,
                    ),
                forall|j: int| 0 <= j < i2 ==> #[trigger] w@[j] <= 65536,
                count == tri_pos_count(
                    sr as int,
                    n as int,
                    bands as int,
                    fmin as int,
                    fmax as int,
                    k as int,
                    i2 as nat,
                ),
            decreases half - i2,
        {
            let wb = warps[i2] as i64;
            let wv: u64 = if cl < wb && wb <= cc {
                proof {
                    assert(0 <= ((wb - cl) * 65536) / (cc - cl) <= 65536 && (wb - cl) * 65536
                        <= 0x1_0000_0000_0000) by (nonlinear_arith)
                        requires
                            cl < wb <= cc,
                            0 <= cl,
                            wb <= 0x20_0000,
                    ;
                }
                (((wb - cl) as u64) * 65536) / ((cc - cl) as u64)
            } else if cc < wb && wb < cr {
                proof {
                    assert(0 <= ((cr - wb) * 65536) / (cr - cc) <= 65536 && (cr - wb) * 65536
                        <= 0x1_0000_0000_0000) by (nonlinear_arith)
                        requires
                            cc < wb < cr,
                            0 <= cc,
                            cr <= 0x80_0000,
                    ;
                }
                (((cr - wb) as u64) * 65536) / ((cr - cc) as u64)
            } else {
                0
            };
            if wv > 0 {
                count = count + 1;
            }
            w.push(wv);
            i2 = i2 + 1;
        }
        if count >= 2 {
            proof {
                lemma_count_witness(
                    sr as int,
                    n as int,
                    bands as int,
                    fmin as int,
                    fmax as int,
                    k as int,
                    half as nat,
                );
                let (wi, wj) = choose|wi: int, wj: int|
                    0 <= wi < wj < half && tri_weight_spec(
                        sr as int,
                        n as int,
                        bands as int,
                        fmin as int,
                        fmax as int,
                        k as int,
                        wi,
                    ) > 0 && tri_weight_spec(
                        sr as int,
                        n as int,
                        bands as int,
                        fmin as int,
                        fmax as int,
                        k as int,
                        wj,
                    ) > 0;
                assert(w@[wi] > 0 && w@[wj] > 0);
                assert(has_two_positive(w@));
            }
            fb.push(Band { w });
        } else {
            // widen: peak at the first bin at or past the center
            let mut j: usize = 0;
            while j < half - 2 && (warps[j] as i64) < cc
                invariant
                    half >= 3,
                    warps@.len() == half,
                    forall|jj: int|
                        0 <= jj < half ==> #[trigger] warps@[jj] == bin_warp_spec(
                            jj,
                            sr as int,
                            n as int,
                        ),
                    forall|jj: int| 0 <= jj < half ==> #[trigger] warps@[jj] <= 0x20_0000,
                    cc == center_spec(sr as int, bands as int, fmin as int, fmax as int, k as int),
                    j <= half - 2,
                    peak_bin_spec(
                        sr as int,
                        n as int,
                        bands as int,
                        fmin as int,
                        fmax as int,
                        k as int,
                        half as int,
                        0,
                    ) == peak_bin_spec(
                        sr as int,
                        n as int,
                        bands as int,
                        fmin as int,
                        fmax as int,
                        k as int,
                        half as int,
                        j as int,
                    ),
                decreases half - 2 - j,
            {
                proof {
                    assert(peak_bin_spec(
                        sr as int,
                        n as int,
                        bands as int,
                        fmin as int,
                        fmax as int,
                        k as int,
                        half as int,
                        j as int,
                    ) == peak_bin_spec(
                        sr as int,
                        n as int,
                        bands as int,
                        fmin as int,
                        fmax as int,
                        k as int,
                        half as int,
                        j as int + 1,
                    ));
                }
                j = j + 1;
            }
            let mut w2: Vec<u64> = Vec::new();
            let mut i3: usize = 0;
            while i3 < half
                invariant
                    i3 <= half,
                    j <= half - 2,
                    half >= 3,
                    w2@.len() == i3,
                    forall|jj: int|
                        0 <= jj < i3 ==> #[trigger] w2@[jj] == (if jj == j {
                            65536int
                        } else if jj == j + 1 {
                            32768int
                        } else {
                            0int
                        }),
                decreases half - i3,
            {
                if i3 == j {
                    w2.push(65536);
                } else if i3 == j + 1 {
                    w2.push(32768);
                } else {
                    w2.push(0);
                }
                i3 = i3 + 1;
            }
            proof {
                assert(w2@[j as int] > 0 && w2@[j as int + 1] > 0);
                assert(has_two_positive(w2@));
            }
            fb.push(Band { w: w2 });
        }
        k = k + 1;
    }
    fb
}

} // verus!
