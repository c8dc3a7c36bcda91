//! Lower-band analysis of the packet-loss concealment: LP analysis
//! (windowed autocorrelation and a double-precision Levinson-Durbin
//! recursion), open-loop pitch (LTP) analysis, and the per-sample
//! filters of the concealment, all in the basic-operator arithmetic of
//! [`crate::basicop`] on the tables of [`crate::plc_tables`].
//!
//! Each routine's contract states its result as the fixed-point recipe
//! it realises, written over the operators' integer specifications.

use vstd::prelude::*;

use crate::basicop::{
    clamp32, l_mac_spec, l_mult_spec, l_shl_spec, l_shr_spec, mpy_32_16_spec, mpy_32_spec, mult_r, mult_r_spec, mult_spec,
    norm_shifts, round_spec, two_pow,
};
use crate::plc_tables::{A_HP, A_HP_POST, B_HP, B_HP_POST, FIR_LP, LAG_H, LAG_L, LPC_WIN_80};
use crate::predictor::{clamp16, in16};

verus! {

/// LP order of the lower-band analysis and synthesis filters.
pub const LP_ORDER: usize = 8;

/// Q15 weighting constant `gamma = 0.94` of the pitch-analysis
/// weighting filter `B(z / gamma)`.
pub const GAMMA_Q15: i32 = 30_802;

/// Q15 relative margin of the smaller-pitch preference in the coarse
/// (decimated-domain) pitch search: a longer lag displaces the
/// incumbent only when its correlation exceeds the incumbent's by this
/// relative margin. The value was chosen empirically against reference
/// concealment vectors; it is no normative constant.
pub const TDS_SMALLER_PITCH_MARGIN_Q15: i32 = 5536;

/// Q15 relative margin of the smaller-pitch preference in the pitch
/// refinement search; 0 keeps the plain arg max.
pub const REFINE_SMALLER_PITCH_MARGIN_Q15: i32 = 0;

/// Every element is a 16-bit value.
pub open spec fn all_in16(s: Seq<i32>) -> bool {
    forall|i: int| 0 <= i < s.len() ==> in16(#[trigger] s[i] as int)
}

/// The preference threshold of an incumbent `v`: `v` raised by the
/// relative margin, in saturating 16-bit arithmetic.
pub open spec fn margin_threshold(v: int, margin: int) -> int {
    clamp16(v + mult_r_spec(v, margin))
}

/// The index that the smaller-lag-preferring maximum search picks among
/// the first `n` values: walking upward from index 0, a later value
/// displaces the incumbent only when it exceeds the incumbent's
/// [`margin_threshold`].
pub open spec fn preferred_index(s: Seq<int>, margin: int, n: int) -> int
    decreases n,
{
    if n <= 1 {
        0
    } else {
        let b = preferred_index(s, margin, n - 1);
        if s[n - 1] > margin_threshold(s[b], margin) {
            n - 1
        } else {
            b
        }
    }
}

/// The picked index lies among the first `n` values.
proof fn lemma_preferred_index_range(s: Seq<int>, margin: int, n: int)
    requires
        n >= 1,
    ensures
        0 <= preferred_index(s, margin, n) < n,
    decreases n,
{
    if n > 1 {
        lemma_preferred_index_range(s, margin, n - 1);
    }
}

/// With margin 0 the preferred maximum is the plain arg max keeping the
/// smaller index on ties: no value exceeds the picked one, and every
/// value before it is strictly smaller.
pub proof fn lemma_zero_margin_is_first_arg_max(s: Seq<int>, n: int)
    requires
        1 <= n <= s.len(),
        forall|i: int| 0 <= i < s.len() ==> in16(#[trigger] s[i]),
    ensures
        forall|j: int| 0 <= j < n ==> #[trigger] s[j] <= s[preferred_index(s, 0, n)],
        forall|j: int| 0 <= j < preferred_index(s, 0, n) ==> #[trigger] s[j] < s[preferred_index(s, 0, n)],
    decreases n,
{
    lemma_preferred_index_range(s, 0, n);
    if n > 1 {
        lemma_zero_margin_is_first_arg_max(s, n - 1);
        let b = preferred_index(s, 0, n - 1);
        lemma_preferred_index_range(s, 0, n - 1);
        assert(mult_r_spec(s[b], 0) == 0);
        assert(margin_threshold(s[b], 0) == s[b]);
    }
}

/// Maximum-correlation search with the smaller-pitch preference: walk
/// `values` upward and let a later (longer-lag) candidate displace the
/// incumbent only when it clears the incumbent's correlation by the Q15
/// relative margin. Returns the picked index and its value; with margin
/// 0 this is the plain arg max keeping the smaller index on ties.
pub fn preferred_max(values: &[i32], margin_q15: i32) -> (r: (usize, i32))
    requires
        values@.len() >= 1,
        all_in16(values@),
        in16(margin_q15 as int),
    ensures
        r.0 == preferred_index(ints(values@), margin_q15 as int, values@.len() as int),
        r.0 < values@.len(),
        r.1 == values@[r.0 as int],
{
    let mut best: usize = 0;
    let mut i: usize = 1;
    while i < values.len()
        invariant
            1 <= i <= values@.len(),
            best < i,
            best == preferred_index(ints(values@), margin_q15 as int, i as int),
            all_in16(values@),
            in16(margin_q15 as int),
        decreases values@.len() - i,
    {
        let inc: i32 = values[best];
        proof {
            assert(in16(values@[best as int] as int));
        }
        let m: i32 = mult_r(inc, margin_q15);
        let threshold: i32 = crate::basicop::add(inc, m);
        if values[i] > threshold {
            best = i;
        }
        i = i + 1;
    }
    (best, values[best])
}


// -----------------------------------------------------------------------
// Windowed autocorrelation
// -----------------------------------------------------------------------

/// The values of an `i32` sequence as integers.
pub open spec fn ints(s: Seq<i32>) -> Seq<int> {
    Seq::new(s.len(), |i: int| s[i] as int)
}

/// `v` holds exactly the values `s`.
pub open spec fn same_values(v: Seq<i32>, s: Seq<int>) -> bool {
    v.len() == s.len() && forall|i: int| 0 <= i < v.len() ==> #[trigger] v[i] as int == s[i]
}

/// The Q15-windowed signal: `y(i) = mult_r(x(i), w(i))`.
pub open spec fn windowed(x: Seq<int>, w: Seq<int>) -> Seq<int> {
    Seq::new(x.len(), |i: int| mult_r_spec(x[i], w[i]))
}

/// Every sample halved by an arithmetic right shift.
pub open spec fn halved(y: Seq<int>) -> Seq<int> {
    Seq::new(y.len(), |i: int| y[i] / 2)
}

/// `sum_{i < n} 2 y(i)^2`: the doubled energy of the first `n` samples
/// (the `L_mac` scale).
pub open spec fn energy(y: Seq<int>, n: int) -> int
    decreases n,
{
    if n <= 0 {
        0
    } else {
        energy(y, n - 1) + 2 * y[n - 1] * y[n - 1]
    }
}

/// The signal halved until its doubled energy fits a 32-bit
/// accumulator (at most `k` halvings).
pub open spec fn rescaled(y: Seq<int>, k: nat) -> Seq<int>
    decreases k,
{
    if energy(y, y.len() as int) <= 0x7fff_ffff || k == 0 {
        y
    } else {
        rescaled(halved(y), (k - 1) as nat)
    }
}

/// The `L_mac` chain `sum_{k <= i < n} 2 y(i) y(i - k)` of lag `k`,
/// saturating at every step.
pub open spec fn lag_sum(y: Seq<int>, k: int, n: int) -> int
    decreases n - k,
{
    if n <= k {
        0
    } else {
        l_mac_spec(lag_sum(y, k, n - 1), y[n - 1], y[n - 1 - k])
    }
}

/// A 32-bit value `v` weighted by the double-precision lag-window entry
/// of lag `k` (`Mpy_32` of the two `(hi, lo)` pairs).
pub open spec fn lag_windowed(v: int, k: int) -> int {
    mpy_32_spec(v / 65536, (v % 65536) / 2, LAG_H[k - 1] as int, LAG_L[k - 1] as int)
}

/// The conditioned autocorrelation `r(0 ..= order)` of `x` under the
/// window `w`: the windowed signal is halved until its energy fits 32
/// bits; `r(0)` is that energy normalised to full scale, and `r(k)` the
/// lag-`k` sum under the same normalisation, weighted by the lag
/// window. `None` when the windowed signal has zero energy.
pub open spec fn autocorr_spec(x: Seq<int>, w: Seq<int>, order: int) -> Option<Seq<int>> {
    let y = rescaled(windowed(x, w), 16);
    let r0 = energy(y, y.len() as int);
    if r0 == 0 {
        None
    } else {
        let norm = norm_shifts(r0, 0x4000_0000);
        Some(
            Seq::new(
                (order + 1) as nat,
                |k: int|
                    if k == 0 {
                        l_shl_spec(r0, norm)
                    } else {
                        lag_windowed(l_shl_spec(lag_sum(y, k, y.len() as int), norm), k)
                    },
            ),
        )
    }
}

/// The exec result matches the specified optional sequence.
pub open spec fn same_option(r: Option<Vec<i32>>, s: Option<Seq<int>>) -> bool {
    match (r, s) {
        (Some(v), Some(t)) => same_values(v@, t),
        (None, None) => true,
        _ => false,
    }
}

/// The doubled energy is non-negative and at most `2 n B^2` when every
/// sample lies within `±B`.
proof fn lemma_energy_bound(y: Seq<int>, n: int, b: int)
    requires
        0 <= n <= y.len(),
        b >= 0,
        forall|i: int| 0 <= i < y.len() ==> -b <= #[trigger] y[i] <= b,
    ensures
        0 <= energy(y, n) <= 2 * n * b * b,
    decreases n,
{
    if n > 0 {
        lemma_energy_bound(y, n - 1, b);
        let v = y[n - 1];
        assert(0 <= 2 * v * v <= 2 * b * b) by (nonlinear_arith)
            requires
                -b <= v <= b,
        ;
        assert(2 * n * b * b == 2 * (n - 1) * b * b + 2 * b * b) by (nonlinear_arith);
    }
}

/// `sum 2 y(i)^2` over `y`, accumulated exactly in 64 bits.
fn energy_of(y: &Vec<i32>) -> (r: i64)
    requires
        y@.len() < 0x4000_0000,
        all_in16(y@),
    ensures
        r as int == energy(ints(y@), y@.len() as int),
        0 <= r,
{
    let mut acc: i64 = 0;
    let mut i: usize = 0;
    while i < y.len()
        invariant
            i <= y@.len() < 0x4000_0000,
            all_in16(y@),
            acc as int == energy(ints(y@), i as int),
            0 <= acc <= 2 * i * 0x4000_0000,
        decreases y@.len() - i,
    {
        let v: i64 = y[i] as i64;
        proof {
            assert(in16(y@[i as int] as int));
            assert(0 <= v * v <= 0x4000_0000) by (nonlinear_arith)
                requires
                    -32768 <= v <= 32767,
            ;
            assert(2 * v * v == 2 * (v * v)) by (nonlinear_arith);
        }
        let sq: i64 = v * v;
        acc = acc + 2 * sq;
        i = i + 1;
    }
    acc
}

/// Windowed autocorrelation with its conditioning: applies the Q15
/// window, halves the windowed signal until its energy fits the 32-bit
/// accumulator, normalises `r(0 ..= order)` to full 32-bit scale and
/// applies the double-precision lag window to `r(1 ..= order)`. Returns
/// `None` when the windowed signal has zero energy.
pub fn autocorr(x: &[i32], win: &[i32], order: usize) -> (r: Option<Vec<i32>>)
    requires
        x@.len() == win@.len(),
        x@.len() < 0x4000_0000,
        order <= LP_ORDER,
        all_in16(x@),
        all_in16(win@),
    ensures
        same_option(r, autocorr_spec(ints(x@), ints(win@), order as int)),
{
    let n: usize = x.len();
    let ghost w0: Seq<int> = windowed(ints(x@), ints(win@));
    let mut y: Vec<i32> = Vec::new();
    let mut i: usize = 0;
    while i < n
        invariant
            n == x@.len() == win@.len(),
            i <= n,
            all_in16(x@),
            all_in16(win@),
            w0 == windowed(ints(x@), ints(win@)),
            y@.len() == i,
            all_in16(y@),
            forall|t: int| 0 <= t < i ==> #[trigger] y@[t] as int == w0[t],
        decreases n - i,
    {
        proof {
            assert(in16(x@[i as int] as int));
            assert(in16(win@[i as int] as int));
        }
        let v: i32 = mult_r(x[i], win[i]);
        y.push(v);
        proof {
            assert(in16(y@[i as int] as int));
        }
        i = i + 1;
    }
    proof {
        assert(ints(y@) =~= w0);
    }
    // Halve until the energy fits the 32-bit accumulator: every sample
    // stays within 2^(15 - k) after k halvings, so at most 15 are needed.
    let ghost mut k: int = 0;
    proof {
        crate::basicop::lemma_two_pow(15);
    }
    let mut r0: i64 = energy_of(&y);
    while r0 > 0x7fff_ffff
        invariant
            y@.len() == n < 0x4000_0000,
            0 <= k <= 15,
            all_in16(y@),
            forall|t: int| 0 <= t < n ==> -two_pow((15 - k) as nat) <= #[trigger] y@[t] <= two_pow((15 - k) as nat),
            rescaled(w0, 16) == rescaled(ints(y@), (16 - k) as nat),
            r0 as int == energy(ints(y@), n as int),
            0 <= r0,
        decreases 15 - k,
    {
        proof {
            if k == 15 {
                assert(two_pow(0) == 1);
                lemma_energy_bound(ints(y@), n as int, 1);
                assert(false);
            }
            crate::basicop::lemma_two_pow((14 - k) as nat);
            assert(two_pow(((14 - k) + 1) as nat) == two_pow((15 - k) as nat));
            assert(two_pow(1) == 2) by {
                reveal_with_fuel(two_pow, 2);
            }
        }
        let ghost before: Seq<int> = ints(y@);
        let mut t: usize = 0;
        while t < n
            invariant
                y@.len() == n,
                t <= n,
                0 <= k < 15,
                before.len() == n,
                two_pow(1) == 2,
                two_pow((15 - k) as nat) == 2 * two_pow((14 - k) as nat),
                forall|j: int| 0 <= j < n ==> -two_pow((15 - k) as nat) <= #[trigger] before[j] <= two_pow((15 - k) as nat),
                forall|j: int| 0 <= j < n ==> in16(#[trigger] before[j]),
                forall|j: int| 0 <= j < t ==> #[trigger] y@[j] as int == before[j] / 2,
                forall|j: int| t <= j < n ==> #[trigger] y@[j] as int == before[j],
            decreases n - t,
        {
            let v: i32 = y[t];
            proof {
                assert(in16(before[t as int]));
            }
            let h: i32 = crate::basicop::shr(v, 1);
            y.set(t, h);
            t = t + 1;
        }
        proof {
            assert(ints(y@) =~= halved(before));
            assert forall|j: int| 0 <= j < n implies -two_pow((14 - k) as nat) <= #[trigger] y@[j] <= two_pow((14 - k) as nat) by {
                assert(y@[j] as int == before[j] / 2);
            }
            assert forall|j: int| 0 <= j < n implies in16(#[trigger] y@[j] as int) by {
                assert(y@[j] as int == before[j] / 2);
                assert(in16(before[j]));
            }
            assert(energy(before, n as int) > 0x7fff_ffff);
            assert(rescaled(before, (16 - k) as nat) == rescaled(halved(before), (15 - k) as nat));
            k = k + 1;
        }
        r0 = energy_of(&y);
    }
    proof {
        assert(rescaled(ints(y@), (16 - k) as nat) == ints(y@));
    }
    let ghost ys: Seq<int> = ints(y@);
    assert(ys == rescaled(windowed(ints(x@), ints(win@)), 16));
    if r0 == 0 {
        return None;
    }
    let r0i: i32 = r0 as i32;
    let norm: i32 = crate::basicop::norm_l(r0i);
    let mut r: Vec<i32> = Vec::new();
    let first: i32 = crate::basicop::l_shl(r0i, norm);
    r.push(first);
    let ghost spec_r: Seq<int> = autocorr_spec(ints(x@), ints(win@), order as int)->0;
    proof {
        crate::plc_tables::lemma_plc_table_ranges();
    }
    let mut kk: usize = 1;
    while kk <= order
        invariant
            1 <= kk <= order + 1,
            order <= LP_ORDER,
            y@.len() == n,
            ys == ints(y@),
            all_in16(y@),
            r0i as int == energy(ys, n as int),
            r0i != 0,
            norm as int == norm_shifts(r0i as int, 0x4000_0000),
            0 <= norm <= 31,
            ys == rescaled(windowed(ints(x@), ints(win@)), 16),
            spec_r == autocorr_spec(ints(x@), ints(win@), order as int)->0,
            autocorr_spec(ints(x@), ints(win@), order as int) is Some,
            r@.len() == kk,
            forall|t: int| 0 <= t < kk ==> #[trigger] r@[t] as int == spec_r[t],
            forall|i: int| 0 <= i < 8 ==> 0 < #[trigger] LAG_H[i] <= 32767,
            forall|i: int| 0 <= i < 8 ==> 0 < #[trigger] LAG_L[i] <= 32767,
        decreases order + 1 - kk,
    {
        let mut acc: i32 = 0;
        let mut i: usize = kk;
        while i < n
            invariant
                1 <= kk <= i,
                i <= n || i == kk,
                y@.len() == n,
                ys == ints(y@),
                all_in16(y@),
                acc as int == lag_sum(ys, kk as int, i as int),
            decreases n - i,
        {
            proof {
                assert(in16(y@[i as int] as int));
                assert(in16(y@[(i - kk) as int] as int));
            }
            acc = crate::basicop::l_mac(acc, y[i], y[i - kk]);
            i = i + 1;
        }
        let rk: i32 = crate::basicop::l_shl(acc, norm);
        let (hi, lo) = crate::basicop::l_extract(rk);
        proof {
            assert(0 < LAG_H[kk - 1] <= 32767);
            assert(0 < LAG_L[kk - 1] <= 32767);
        }
        let v: i32 = crate::basicop::mpy_32(hi, lo, LAG_H[kk - 1], LAG_L[kk - 1]);
        r.push(v);
        kk = kk + 1;
    }
    Some(r)
}

// -----------------------------------------------------------------------
// Double-precision division and the Levinson-Durbin recursion
// -----------------------------------------------------------------------

/// `div_s(a, b)`: Q15 quotient of `0 <= a <= b`, 32767 when `a == b`.
pub open spec fn div_s_spec(a: int, b: int) -> int {
    if a == b {
        32767
    } else {
        a * 32768 / b
    }
}

/// The smaller of two integers.
pub open spec fn min_int(a: int, b: int) -> int {
    if a <= b {
        a
    } else {
        b
    }
}

/// The absolute value of an integer.
pub open spec fn abs_int(a: int) -> int {
    if a < 0 {
        -a
    } else {
        a
    }
}

/// High word of the double-precision `(hi, lo)` split of `v`.
pub open spec fn hi_of(v: int) -> int {
    v / 65536
}

/// Low word (15 bits) of the double-precision `(hi, lo)` split of `v`.
pub open spec fn lo_of(v: int) -> int {
    (v % 65536) / 2
}

/// `Mpy_32` of the double-precision splits of `u` and `v`.
pub open spec fn dmul(u: int, v: int) -> int {
    mpy_32_spec(hi_of(u), lo_of(u), hi_of(v), lo_of(v))
}

/// The Q31 quotient `num / den` of [`div32_q31`]: both operands
/// normalised by the shift that brings `den` to full scale, a Q15 head
/// `div_s(nh, dh)` of the high words, and a second `div_s` on the
/// remainder for 15 more bits, combined in the `(hi << 16) + (lo << 1)`
/// encoding.
pub open spec fn div32_spec(num: int, den: int) -> int {
    let sh = norm_shifts(den, 0x4000_0000);
    let d = l_shl_spec(den, sh);
    let n = l_shl_spec(num, sh);
    let dh = d / 65536;
    let nh = n / 65536;
    if dh == 0 {
        0
    } else {
        let q15 = div_s_spec(min_int(nh, dh), dh);
        let est = mpy_32_16_spec(hi_of(d), lo_of(d), q15);
        let rem = clamp32(n - est);
        let rem_up = l_shl_spec(clamp32(abs_int(rem)), 15);
        let rh = rem_up / 65536;
        let q2 = if rh <= 0 {
            0
        } else {
            div_s_spec(min_int(rh, dh), dh)
        };
        if rem < 0 {
            clamp32(q15 * 65536 - l_shl_spec(q2, 1))
        } else {
            clamp32(q15 * 65536 + 2 * q2)
        }
    }
}

/// A `div_s` quotient of `0 <= a <= b` is a 16-bit value in `[0, 32767]`.
proof fn lemma_div_s_range(a: int, b: int)
    requires
        0 <= a <= b,
        b > 0,
    ensures
        0 <= div_s_spec(a, b) <= 32767,
{
    if a != b {
        assert(a * 32768 < b * 32768) by (nonlinear_arith)
            requires
                0 <= a < b,
        ;
        vstd::arithmetic::div_mod::lemma_div_is_ordered(a * 32768, b * 32768 - 1, b);
        assert((b * 32768 - 1) / b < 32768) by {
            vstd::arithmetic::div_mod::lemma_div_by_multiple(32768, b);
            assert(b * 32768 == 32768 * b) by (nonlinear_arith);
            vstd::arithmetic::div_mod::lemma_div_is_ordered(b * 32768 - 1, b * 32768, b);
            vstd::arithmetic::div_mod::lemma_fundamental_div_mod(b * 32768 - 1, b);
            vstd::arithmetic::div_mod::lemma_mod_bound(b * 32768 - 1, b);
            assert((b * 32768 - 1) / b < 32768) by (nonlinear_arith)
                requires
                    b > 0,
                    b * 32768 - 1 == b * ((b * 32768 - 1) / b) + (b * 32768 - 1) % b,
                    0 <= (b * 32768 - 1) % b < b,
            ;
        }
        vstd::arithmetic::div_mod::lemma_div_pos_is_pos(a * 32768, b);
    }
}

/// Q31 fractional division `num / den` for `0 <= num < den`, built from
/// `div_s` with one double-precision refinement step: the first `div_s`
/// gives the Q15 head; the remainder is scaled back up and divided again
/// for 15 more bits.
pub fn div32_q31(num: i32, den: i32) -> (r: i32)
    requires
        0 <= num < den,
    ensures
        r as int == div32_spec(num as int, den as int),
        -65536 < r,
{
    let sh: i32 = crate::basicop::norm_l(den);
    let d: i32 = crate::basicop::l_shl(den, sh);
    let n: i32 = crate::basicop::l_shl(num, sh);
    let dh: i32 = crate::basicop::extract_h(d);
    let nh: i32 = crate::basicop::extract_h(n);
    proof {
        crate::basicop::lemma_two_pow(sh as nat);
        assert(0 <= den * two_pow(sh as nat)) by (nonlinear_arith)
            requires
                den > 0,
                two_pow(sh as nat) > 0,
        ;
        assert(0 <= num * two_pow(sh as nat)) by (nonlinear_arith)
            requires
                num >= 0,
                two_pow(sh as nat) > 0,
        ;
    }
    if dh == 0 {
        return 0;
    }
    let a1: i32 = if nh < dh {
        nh
    } else {
        dh
    };
    proof {
        lemma_div_s_range(a1 as int, dh as int);
    }
    let q15: i32 = crate::basicop::div_s(a1, dh);
    let (dhi, dlo) = crate::basicop::l_extract(d);
    let est: i32 = crate::basicop::mpy_32_16(dhi, dlo, q15);
    let rem: i32 = crate::basicop::l_sub(n, est);
    let rem_up: i32 = crate::basicop::l_shl(crate::basicop::l_abs(rem), 15);
    let rh: i32 = crate::basicop::extract_h(rem_up);
    let q2: i32 = if rh <= 0 {
        0
    } else {
        let a2: i32 = if rh < dh {
            rh
        } else {
            dh
        };
        proof {
            lemma_div_s_range(a2 as int, dh as int);
        }
        crate::basicop::div_s(a2, dh)
    };
    proof {
        assert(two_pow(1) == 2) by {
            reveal_with_fuel(two_pow, 2);
        }
        assert(0 <= q2 <= 32767);
        assert(0 <= q15 <= 32767);
    }
    if rem < 0 {
        crate::basicop::l_sub(crate::basicop::l_deposit_h(q15), crate::basicop::l_shl(q2, 1))
    } else {
        crate::basicop::l_comp(q15, q2)
    }
}

/// The Levinson-Durbin state after lag `i`: the Q27 coefficients
/// `a(0 ..= 8)`, the prediction error, and whether the recursion has
/// stopped.
pub type LevState = (Seq<int>, int, bool);

/// `r(i) / 2^4 + sum_{1 <= j < m} a(j) r(i - j)` in double precision,
/// saturating at every step (Q27).
pub open spec fn lev_acc(a: Seq<int>, r: Seq<int>, i: int, m: int) -> int
    decreases m,
{
    if m <= 1 {
        l_shr_spec(r[i], 4)
    } else {
        clamp32(lev_acc(a, r, i, m - 1) + dmul(a[m - 1], r[i - (m - 1)]))
    }
}

/// The coefficient update of step `i` with reflection coefficient `k`:
/// `a(j) += k a(i - j)` for `1 <= j < i`, and `a(i) = k` in Q27.
pub open spec fn lev_update(a: Seq<int>, k: int, i: int) -> Seq<int> {
    Seq::new(
        a.len(),
        |j: int|
            if 1 <= j < i {
                clamp32(a[j] + dmul(k, a[i - j]))
            } else if j == i {
                l_shr_spec(k, 4)
            } else {
                a[j]
            },
    )
}

/// Step `i` of the recursion: the reflection coefficient
/// `k = -acc / err` in Q31, the coefficient update, and
/// `err *= 1 - k^2`; the recursion stops (keeping the coefficients so
/// far) when the error is not positive or `|acc| >= err`.
pub open spec fn lev_step(st: LevState, r: Seq<int>, i: int) -> LevState {
    let a = st.0;
    let err = st.1;
    if st.2 {
        st
    } else {
        let acc31 = l_shl_spec(lev_acc(a, r, i, i), 4);
        let mag_in = clamp32(abs_int(acc31));
        if err <= 0 || mag_in >= err {
            (a, err, true)
        } else {
            let mag = div32_spec(mag_in, err);
            let k = if acc31 > 0 {
                -mag
            } else {
                mag
            };
            (lev_update(a, k, i), dmul(err, clamp32(0x7fff_ffff - dmul(k, k))), false)
        }
    }
}

/// The recursion state after steps `1 ..= n`, starting from zero
/// coefficients and the error `r(0)`.
pub open spec fn lev_run(r: Seq<int>, n: int) -> LevState
    decreases n,
{
    if n <= 0 {
        (Seq::new(9, |j: int| 0), r[0], false)
    } else {
        lev_step(lev_run(r, n - 1), r, n)
    }
}

/// The Q12 LP coefficients `a(1 ..= 8)` of an order-`order` recursion:
/// the Q27 coefficients rounded back to Q12.
pub open spec fn levinson_spec(r: Seq<int>, order: int) -> Seq<int> {
    let a = lev_run(r, order).0;
    Seq::new(8, |m: int| round_spec(l_shl_spec(a[m + 1], 1)))
}

/// Once the recursion has stopped, later steps keep its state.
proof fn lemma_lev_stopped(r: Seq<int>, m: int, n: int)
    requires
        1 <= m <= n,
        lev_run(r, m).2,
    ensures
        lev_run(r, n) == lev_run(r, m),
    decreases n - m,
{
    if n > m {
        lemma_lev_stopped(r, m, n - 1);
    }
}

/// Every coefficient state has nine entries.
proof fn lemma_lev_len(r: Seq<int>, n: int)
    ensures
        lev_run(r, n).0.len() == 9,
    decreases n,
{
    if n > 0 {
        lemma_lev_len(r, n - 1);
    }
}

/// Levinson-Durbin recursion in double precision on the conditioned
/// autocorrelations `r(0 ..= order)`; returns `a(1 ..= 8)` in Q12
/// (entries past `order` are 0). The coefficients are held in Q27; the
/// recursion stops early, keeping the coefficients found so far, when
/// the prediction error is not positive or a reflection coefficient
/// leaves the open unit interval.
pub fn levinson(r: &[i32], order: usize) -> (out: [i32; LP_ORDER])
    requires
        order <= LP_ORDER,
        r@.len() > order,
    ensures
        same_values(out@, levinson_spec(ints(r@), order as int)),
        all_in16(out@),
{
    let ghost rs: Seq<int> = ints(r@);
    let mut a: [i32; 9] = [0; 9];
    let mut err: i32 = r[0];
    let mut i: usize = 1;
    let ghost mut stop: int = 0;
    proof {
        assert(same_values(a@, lev_run(rs, 0).0));
    }
    while i <= order
        invariant_except_break
            1 <= i <= order + 1,
            order <= LP_ORDER,
            r@.len() > order,
            rs == ints(r@),
            same_values(a@, lev_run(rs, i - 1).0),
            err as int == lev_run(rs, i - 1).1,
            !lev_run(rs, i - 1).2,
        ensures
            1 <= i <= order + 1,
            same_values(a@, lev_run(rs, order as int).0),
        decreases order + 1 - i,
    {
        let ghost st: LevState = lev_run(rs, i - 1);
        proof {
            lemma_lev_len(rs, i - 1);
        }
        let mut acc: i32 = crate::basicop::l_shr(r[i], 4);
        let mut j: usize = 1;
        while j < i
            invariant
                1 <= j <= i <= order,
                order <= LP_ORDER,
                r@.len() > order,
                rs == ints(r@),
                st.0.len() == 9,
                same_values(a@, st.0),
                acc as int == lev_acc(st.0, rs, i as int, j as int),
            decreases i - j,
        {
            let (ah, al) = crate::basicop::l_extract(a[j]);
            let (rh, rl) = crate::basicop::l_extract(r[i - j]);
            let p: i32 = crate::basicop::mpy_32(ah, al, rh, rl);
            acc = crate::basicop::l_add(acc, p);
            j = j + 1;
        }
        let acc_q31: i32 = crate::basicop::l_shl(acc, 4);
        let mag_in: i32 = crate::basicop::l_abs(acc_q31);
        if err <= 0 || mag_in >= err {
            proof {
                assert(lev_run(rs, i as int) == (st.0, st.1, true));
                lemma_lev_stopped(rs, i as int, order as int);
            }
            break;
        }
        let mag: i32 = div32_q31(mag_in, err);
        let k_q31: i32 = if acc_q31 > 0 {
            -mag
        } else {
            mag
        };
        let (kh, kl) = crate::basicop::l_extract(k_q31);
        let ghost upd: Seq<int> = lev_update(st.0, k_q31 as int, i as int);
        let mut new_a: [i32; 9] = a;
        let mut j: usize = 1;
        while j < i
            invariant
                1 <= j <= i <= order,
                order <= LP_ORDER,
                st.0.len() == 9,
                same_values(a@, st.0),
                upd == lev_update(st.0, k_q31 as int, i as int),
                kh as int == hi_of(k_q31 as int),
                kl as int == lo_of(k_q31 as int),
                in16(kh as int),
                0 <= kl < 32768,
                new_a@.len() == 9,
                forall|t: int| 1 <= t < j ==> #[trigger] new_a@[t] as int == upd[t],
                forall|t: int| 0 <= t < 9 && !(1 <= t < j) ==> #[trigger] new_a@[t] == a@[t],
            decreases i - j,
        {
            let (ah, al) = crate::basicop::l_extract(a[i - j]);
            let p: i32 = crate::basicop::mpy_32(kh, kl, ah, al);
            new_a[j] = crate::basicop::l_add(a[j], p);
            j = j + 1;
        }
        new_a[i] = crate::basicop::l_shr(k_q31, 4);
        proof {
            assert(same_values(new_a@, upd));
        }
        a = new_a;
        let kk: i32 = crate::basicop::mpy_32(kh, kl, kh, kl);
        let om: i32 = crate::basicop::l_sub(i32::MAX, kk);
        let (eh, el) = crate::basicop::l_extract(err);
        let (oh, ol) = crate::basicop::l_extract(om);
        err = crate::basicop::mpy_32(eh, el, oh, ol);
        proof {
            assert(lev_run(rs, i as int) == lev_step(st, rs, i as int));
        }
        i = i + 1;
    }
    proof {
        lemma_lev_len(rs, order as int);
    }
    let ghost fin: Seq<int> = lev_run(rs, order as int).0;
    let mut out: [i32; LP_ORDER] = [0; LP_ORDER];
    let mut m: usize = 0;
    while m < LP_ORDER
        invariant
            m <= LP_ORDER,
            fin.len() == 9,
            same_values(a@, fin),
            fin == lev_run(rs, order as int).0,
            out@.len() == 8,
            forall|t: int| 0 <= t < m ==> #[trigger] out@[t] as int == levinson_spec(rs, order as int)[t],
            forall|t: int| 0 <= t < m ==> in16(#[trigger] out@[t] as int),
        decreases LP_ORDER - m,
    {
        out[m] = crate::basicop::round_fx(crate::basicop::l_shl(a[m + 1], 1));
        m = m + 1;
    }
    proof {
        assert forall|t: int| 0 <= t < 8 implies in16(#[trigger] out@[t] as int) by {}
    }
    out
}

// -----------------------------------------------------------------------
// LP analysis, decimation and weighting
// -----------------------------------------------------------------------

/// Eight zero coefficients.
pub open spec fn zero_coeffs() -> Seq<int> {
    Seq::new(8, |i: int| 0)
}

/// The LP analysis of the last 80 lower-band samples: the conditioned
/// autocorrelation under the Q15 window [`LPC_WIN_80`], then the
/// order-8 recursion; all zero when the windowed history is silent.
pub open spec fn lp_analysis_spec(hist: Seq<int>) -> Seq<int> {
    match autocorr_spec(hist, ints(LPC_WIN_80@), 8) {
        Some(r) => levinson_spec(r, 8),
        None => zero_coeffs(),
    }
}

/// A vector holding exactly `s` lists its values as `s`.
proof fn lemma_same_values_ints(v: Seq<i32>, s: Seq<int>)
    requires
        same_values(v, s),
    ensures
        ints(v) == s,
{
    assert(ints(v) =~= s);
}

/// The window table as a sequence of 16-bit values.
proof fn lemma_window_in16()
    ensures
        all_in16(LPC_WIN_80@),
        LPC_WIN_80@.len() == 80,
{
    crate::plc_tables::lemma_plc_table_ranges();
    assert forall|i: int| 0 <= i < 80 implies in16(#[trigger] LPC_WIN_80@[i] as int) by {
        assert(0 < LPC_WIN_80[i] <= 32767);
    }
}

/// Eighth-order LP analysis on the last 10 ms of the lower band
/// (`hist` is `zl(-80 .. -1)`, oldest first): Q15 window, conditioned
/// autocorrelation, Levinson-Durbin. Returns `a(1 ..= 8)` in Q12.
pub fn lp_analysis(hist: &[i32; 80]) -> (a: [i32; LP_ORDER])
    requires
        all_in16(hist@),
    ensures
        same_values(a@, lp_analysis_spec(ints(hist@))),
        all_in16(a@),
{
    proof {
        lemma_window_in16();
    }
    match autocorr(hist, &LPC_WIN_80, LP_ORDER) {
        Some(r) => {
            proof {
                lemma_same_values_ints(r@, autocorr_spec(ints(hist@), ints(LPC_WIN_80@), 8)->0);
            }
            levinson(r.as_slice(), LP_ORDER)
        },
        None => {
            let z: [i32; LP_ORDER] = [0; LP_ORDER];
            proof {
                assert(same_values(z@, zero_coeffs()));
            }
            z
        },
    }
}

/// A silent history has silent LP coefficients: the windowed signal
/// has zero energy, and the analysis falls back to all-zero
/// coefficients.
pub proof fn lemma_lp_analysis_of_silence(hist: Seq<int>)
    requires
        hist.len() == 80,
        forall|i: int| 0 <= i < 80 ==> #[trigger] hist[i] == 0,
    ensures
        lp_analysis_spec(hist) == zero_coeffs(),
{
    let y = windowed(hist, ints(LPC_WIN_80@));
    assert forall|i: int| 0 <= i < 80 implies #[trigger] y[i] == 0 by {
        assert(hist[i] == 0);
        assert(0 * (LPC_WIN_80@[i] as int) == 0);
    }
    lemma_energy_zero(y, 80);
    assert(rescaled(y, 16) == y);
}

/// A sequence of zeros has zero energy.
proof fn lemma_energy_zero(y: Seq<int>, n: int)
    requires
        0 <= n <= y.len(),
        forall|i: int| 0 <= i < n ==> #[trigger] y[i] == 0,
    ensures
        energy(y, n) == 0,
    decreases n,
{
    if n > 0 {
        lemma_energy_zero(y, n - 1);
    }
}

/// The decimation FIR accumulation `sum_{j < taps} h(j) x(m - j)` with
/// zero history before the buffer, saturating at every step (Q16).
pub open spec fn dec_acc(z: Seq<int>, m: int, taps: int) -> int
    decreases taps,
{
    if taps <= 0 {
        0
    } else {
        let idx = m - (taps - 1);
        let x = if idx >= 0 {
            z[idx]
        } else {
            0
        };
        clamp32(dec_acc(z, m, taps - 1) + FIR_LP[taps - 1] * x)
    }
}

/// The 4:1 decimation of the pre-processed signal: `t(k)` is the
/// high word of the FIR output at the last sample of block `k`.
pub open spec fn decimate_spec(z: Seq<int>) -> Seq<int> {
    Seq::new(72, |k: int| dec_acc(z, 4 * k + 3, 9) / 65536)
}

/// Low-pass the 288-sample pre-processed signal by the Q16 decimation
/// FIR (zero initial memory) and decimate 4:1 to 2 kHz.
pub fn decimate(zlpre: &[i32; 288]) -> (t: [i32; 72])
    requires
        all_in16(zlpre@),
    ensures
        same_values(t@, decimate_spec(ints(zlpre@))),
        all_in16(t@),
{
    proof {
        crate::plc_tables::lemma_plc_table_ranges();
    }
    let ghost zs: Seq<int> = ints(zlpre@);
    let mut t: [i32; 72] = [0; 72];
    let mut k: usize = 0;
    while k < 72
        invariant
            k <= 72,
            zs == ints(zlpre@),
            all_in16(zlpre@),
            t@.len() == 72,
            forall|i: int| 0 <= i < 9 ==> 0 < #[trigger] FIR_LP[i] <= 32767,
            forall|u: int| 0 <= u < k ==> #[trigger] t@[u] as int == decimate_spec(zs)[u],
            forall|u: int| 0 <= u < k ==> in16(#[trigger] t@[u] as int),
        decreases 72 - k,
    {
        let m: usize = 4 * k + 3;
        let mut acc: i32 = 0;
        let mut j: usize = 0;
        while j < 9
            invariant
                j <= 9,
                k < 72,
                m == 4 * k + 3,
                zs == ints(zlpre@),
                all_in16(zlpre@),
                forall|i: int| 0 <= i < 9 ==> 0 < #[trigger] FIR_LP[i] <= 32767,
                acc as int == dec_acc(zs, m as int, j as int),
            decreases 9 - j,
        {
            let x: i32 = if m >= j {
                zlpre[m - j]
            } else {
                0
            };
            proof {
                if m >= j {
                    assert(in16(zlpre@[(m - j) as int] as int));
                }
                assert(0 < FIR_LP[j as int] <= 32767);
            }
            acc = crate::basicop::l_mac0(acc, FIR_LP[j], x);
            j = j + 1;
        }
        t[k] = crate::basicop::extract_h(acc);
        k = k + 1;
    }
    t
}

/// The weighting coefficients `a(1), a(2)` (Q12) of the second-order LP
/// fit of `t` under the last 72 entries of the analysis window; zero
/// when the windowed signal is silent.
pub open spec fn weight_lp(t: Seq<int>) -> Seq<int> {
    match autocorr_spec(t, ints(LPC_WIN_80@).subrange(8, 80), 2) {
        Some(r) => levinson_spec(r, 2),
        None => zero_coeffs(),
    }
}

/// The weighted signal `tw = B(z / gamma) t`, an FIR with zero initial
/// state: `tw(k) = t(k) + gamma a1 t(k-1) + gamma^2 a2 t(k-2)`, with the
/// weighted coefficients `c_i = mult(gamma^i, a_i)` in Q12, accumulated
/// in Q13 and rounded back to Q0.
pub open spec fn weight_spec(t: Seq<int>) -> Seq<int> {
    let a2 = weight_lp(t);
    let g2 = mult_spec(GAMMA_Q15 as int, GAMMA_Q15 as int);
    let c1 = mult_spec(GAMMA_Q15 as int, a2[0]);
    let c2 = mult_spec(g2, a2[1]);
    Seq::new(
        72,
        |k: int|
            {
                let t1 = if k >= 1 {
                    t[k - 1]
                } else {
                    0
                };
                let t2 = if k >= 2 {
                    t[k - 2]
                } else {
                    0
                };
                round_spec(
                    l_shl_spec(l_mac_spec(l_mac_spec(l_mult_spec(t[k], 4096), c1, t1), c2, t2), 3),
                )
            },
    )
}

/// Pitch-analysis weighting: a second-order LP fit of `t` (windowed by
/// the last 72 entries of the analysis window) gives `B(z)`; the result
/// is `B(z / gamma) t` with `gamma = 0.94`, run as an FIR with zero
/// initial state.
pub fn weight(t: &[i32; 72]) -> (tw: [i32; 72])
    requires
        all_in16(t@),
    ensures
        same_values(tw@, weight_spec(ints(t@))),
        all_in16(tw@),
{
    proof {
        lemma_window_in16();
    }
    let mut win: Vec<i32> = Vec::new();
    let mut i: usize = 8;
    while i < 80
        invariant
            8 <= i <= 80,
            all_in16(LPC_WIN_80@),
            LPC_WIN_80@.len() == 80,
            win@.len() == i - 8,
            forall|u: int| 0 <= u < i - 8 ==> #[trigger] win@[u] == LPC_WIN_80@[u + 8],
        decreases 80 - i,
    {
        win.push(LPC_WIN_80[i]);
        i = i + 1;
    }
    proof {
        assert(ints(win@) =~= ints(LPC_WIN_80@).subrange(8, 80));
        assert forall|u: int| 0 <= u < win@.len() implies in16(#[trigger] win@[u] as int) by {
            assert(win@[u] == LPC_WIN_80@[u + 8]);
        }
    }
    let a2: [i32; LP_ORDER] = match autocorr(t, win.as_slice(), 2) {
        Some(r) => {
            proof {
                lemma_same_values_ints(r@, autocorr_spec(ints(t@), ints(win@), 2)->0);
            }
            levinson(r.as_slice(), 2)
        },
        None => {
            let z: [i32; LP_ORDER] = [0; LP_ORDER];
            proof {
                assert(same_values(z@, zero_coeffs()));
            }
            z
        },
    };
    proof {
        lemma_same_values_ints(a2@, weight_lp(ints(t@)));
        assert(in16(a2@[0] as int));
        assert(in16(a2@[1] as int));
    }
    let g2: i32 = crate::basicop::mult(GAMMA_Q15, GAMMA_Q15);
    let c1: i32 = crate::basicop::mult(GAMMA_Q15, a2[0]);
    let c2: i32 = crate::basicop::mult(g2, a2[1]);
    let ghost spec_tw: Seq<int> = weight_spec(ints(t@));
    let mut tw: [i32; 72] = [0; 72];
    let mut k: usize = 0;
    while k < 72
        invariant
            k <= 72,
            all_in16(t@),
            t@.len() == 72,
            in16(c1 as int),
            in16(c2 as int),
            spec_tw == weight_spec(ints(t@)),
            c1 as int == mult_spec(GAMMA_Q15 as int, weight_lp(ints(t@))[0]),
            c2 as int == mult_spec(
                mult_spec(GAMMA_Q15 as int, GAMMA_Q15 as int),
                weight_lp(ints(t@))[1],
            ),
            tw@.len() == 72,
            forall|u: int| 0 <= u < k ==> #[trigger] tw@[u] as int == spec_tw[u],
            forall|u: int| 0 <= u < k ==> in16(#[trigger] tw@[u] as int),
        decreases 72 - k,
    {
        let t1: i32 = if k >= 1 {
            t[k - 1]
        } else {
            0
        };
        let t2: i32 = if k >= 2 {
            t[k - 2]
        } else {
            0
        };
        proof {
            assert(in16(t@[k as int] as int));
            if k >= 1 {
                assert(in16(t@[k - 1] as int));
            }
            if k >= 2 {
                assert(in16(t@[k - 2] as int));
            }
        }
        let mut acc: i32 = crate::basicop::l_mult(t[k], 4096);
        acc = crate::basicop::l_mac(acc, c1, t1);
        acc = crate::basicop::l_mac(acc, c2, t2);
        tw[k] = crate::basicop::round_fx(crate::basicop::l_shl(acc, 3));
        k = k + 1;
    }
    tw
}

// -----------------------------------------------------------------------
// Normalised correlation and the open-loop pitch analysis
// -----------------------------------------------------------------------

/// The smallest shift `sh >= from` that brings `d` under the 32-bit
/// limit: `d / 2^sh <= i32::MAX` (capped at 64).
pub open spec fn fit_shift(d: int, from: nat) -> nat
    decreases 64 - from,
{
    if from >= 64 || d / two_pow(from) <= 0x7fff_ffff {
        from
    } else {
        fit_shift(d, from + 1)
    }
}

/// The larger of two integers.
pub open spec fn max_int(a: int, b: int) -> int {
    if a >= b {
        a
    } else {
        b
    }
}

/// The normalised cross-correlation `xy / max(xx, yy)` in Q15: the
/// three sums are shifted jointly until the larger energy fits 32 bits,
/// both operands are normalised by the shift that brings the energy to
/// full scale, and one `div_s` of the high words gives the magnitude;
/// the sign is that of `xy`; the numerator's magnitude saturates at
/// `i32::MAX` as `L_abs` does. Zero when both energies are zero.
pub open spec fn norm_corr_spec(xy: int, xx: int, yy: int) -> int {
    let d = max_int(xx, yy);
    if d <= 0 {
        0
    } else {
        let sh = fit_shift(d, 0);
        let den = d / two_pow(sh);
        let num = xy / two_pow(sh);
        let nsh = norm_shifts(den, 0x4000_0000);
        let dh = l_shl_spec(den, nsh) / 65536;
        let nh = l_shl_spec(clamp32(abs_int(num)), nsh) / 65536;
        if dh <= 0 {
            0
        } else {
            let q = div_s_spec(min_int(nh, dh), dh);
            if num < 0 {
                -q
            } else {
                q
            }
        }
    }
}


/// `floor(-d / c) >= -floor(d / c) - 1` for `d >= 0`, `c > 0`.
proof fn lemma_neg_div_bound(d: int, c: int)
    requires
        d >= 0,
        c > 0,
    ensures
        (-d) / c >= -(d / c) - 1,
        d / c >= 0,
{
    let q = d / c;
    let r = d % c;
    vstd::arithmetic::div_mod::lemma_fundamental_div_mod(d, c);
    vstd::arithmetic::div_mod::lemma_mod_bound(d, c);
    vstd::arithmetic::div_mod::lemma_div_pos_is_pos(d, c);
    if r == 0 {
        assert(-d == c * (-q)) by (nonlinear_arith)
            requires
                d == c * q,
        ;
        vstd::arithmetic::div_mod::lemma_fundamental_div_mod_converse(-d, c, -q, 0);
    } else {
        assert(-d == c * (-q - 1) + (c - r)) by (nonlinear_arith)
            requires
                d == c * q + r,
        ;
        vstd::arithmetic::div_mod::lemma_fundamental_div_mod_converse(-d, c, -q - 1, c - r);
    }
}

/// Normalised cross-correlation in Q15: `xy / max(xx, yy)`, the sign
/// carried on the numerator. The energies are jointly renormalised
/// before a single `div_s`; `2 |xy| <= xx + yy` makes the quotient at
/// most one.
pub fn norm_corr(xy: i64, xx: i64, yy: i64) -> (r: i32)
    requires
        xx >= 0,
        yy >= 0,
        2 * abs_int(xy as int) <= xx + yy,
    ensures
        r as int == norm_corr_spec(xy as int, xx as int, yy as int),
        -32767 <= r <= 32767,
{
    let den64: i64 = if xx >= yy {
        xx
    } else {
        yy
    };
    if den64 <= 0 {
        return 0;
    }
    let mut sh: u32 = 0;
    proof {
        assert(two_pow(0) == 1);
        crate::basicop::lemma_shr64_is_div(den64, 0);
        assert(two_pow(32) == 0x1_0000_0000) by {
            reveal_with_fuel(two_pow, 33);
        }
    }
    while (den64 >> sh) > 0x7fff_ffff
        invariant
            0 < den64,
            sh <= 32,
            two_pow(32) == 0x1_0000_0000,
            (den64 >> sh) as int == den64 as int / two_pow(sh as nat),
            fit_shift(den64 as int, 0) == fit_shift(den64 as int, sh as nat),
        decreases 32 - sh,
    {
        proof {
            if sh == 32 {
                vstd::arithmetic::div_mod::lemma_div_is_ordered(den64 as int, 0x8000_0000_0000_0000, 0x1_0000_0000);
                assert(0x8000_0000_0000_0000int / 0x1_0000_0000int == 0x8000_0000);
            }
            crate::basicop::lemma_shr64_is_div(den64, (sh + 1) as u32);
        }
        sh = sh + 1;
    }
    proof {
        crate::basicop::lemma_two_pow(sh as nat);
        crate::basicop::lemma_shr64_is_div(xy, sh);
        let c = two_pow(sh as nat);
        lemma_neg_div_bound(den64 as int, c);
        vstd::arithmetic::div_mod::lemma_div_is_ordered(xy as int, den64 as int, c);
        vstd::arithmetic::div_mod::lemma_div_is_ordered(-den64, xy as int, c);
    }
    let den: i32 = (den64 >> sh) as i32;
    let num: i32 = (xy >> sh) as i32;
    let nsh: i32 = crate::basicop::norm_l(den);
    let dh: i32 = crate::basicop::extract_h(crate::basicop::l_shl(den, nsh));
    let mag: i32 = crate::basicop::l_abs(num);
    proof {
        crate::basicop::lemma_two_pow(nsh as nat);
        assert(0 <= mag * two_pow(nsh as nat)) by (nonlinear_arith)
            requires
                mag >= 0,
                two_pow(nsh as nat) > 0,
        ;
    }
    let nh: i32 = crate::basicop::extract_h(crate::basicop::l_shl(mag, nsh));
    if dh <= 0 {
        return 0;
    }
    let a: i32 = if nh < dh {
        nh
    } else {
        dh
    };
    proof {
        lemma_div_s_range(a as int, dh as int);
    }
    let q: i32 = crate::basicop::div_s(a, dh);
    if num < 0 {
        -q
    } else {
        q
    }
}

/// `sum_{j < len} s(start + j) s(start + j - lag)`.
pub open spec fn corr_xy(s: Seq<int>, start: int, len: int, lag: int) -> int
    decreases len,
{
    if len <= 0 {
        0
    } else {
        corr_xy(s, start, len - 1, lag) + s[start + len - 1] * s[start + len - 1 - lag]
    }
}

/// `sum_{j < len} s(start + j)^2`.
pub open spec fn corr_xx(s: Seq<int>, start: int, len: int) -> int
    decreases len,
{
    if len <= 0 {
        0
    } else {
        corr_xx(s, start, len - 1) + s[start + len - 1] * s[start + len - 1]
    }
}

/// The normalised correlation of the `len`-sample window at `start`
/// with its copy `lag` samples earlier.
pub open spec fn corr_at(s: Seq<int>, start: int, len: int, lag: int) -> int {
    norm_corr_spec(corr_xy(s, start, len, lag), corr_xx(s, start, len), corr_xx(s, start - lag, len))
}


/// `2 |sum x y| <= sum x^2 + sum y^2`, term by term.
proof fn lemma_corr_amgm(s: Seq<int>, start: int, len: int, lag: int)
    requires
        0 <= lag <= start,
        start + len <= s.len(),
    ensures
        2 * abs_int(corr_xy(s, start, len, lag)) <= corr_xx(s, start, len) + corr_xx(s, start - lag, len),
        0 <= corr_xx(s, start, len),
        0 <= corr_xx(s, start - lag, len),
    decreases len,
{
    if len > 0 {
        lemma_corr_amgm(s, start, len - 1, lag);
        let x = s[start + len - 1];
        let y = s[start + len - 1 - lag];
        assert(start - lag + len - 1 == start + len - 1 - lag);
        assert(2 * abs_int(x * y) <= x * x + y * y && 0 <= x * x && 0 <= y * y) by (nonlinear_arith)
            requires
                true,
        {
            assert(0 <= (x - y) * (x - y));
            assert(0 <= (x + y) * (x + y));
        }
    }
}

/// The normalised correlation of the `len`-sample window of `s` at
/// `start` with its copy `lag` samples earlier.
fn corr_value(s: &[i32], start: usize, len: usize, lag: usize) -> (r: i32)
    requires
        lag <= start,
        start + len <= s@.len(),
        len <= 288,
        all_in16(s@),
    ensures
        r as int == corr_at(ints(s@), start as int, len as int, lag as int),
        -32767 <= r <= 32767,
{
    let ghost ss: Seq<int> = ints(s@);
    let n: usize = s.len();
    let mut xy: i64 = 0;
    let mut xx: i64 = 0;
    let mut yy: i64 = 0;
    let mut j: usize = 0;
    while j < len
        invariant
            j <= len <= 288,
            lag <= start,
            start + len <= s@.len(),
            n == s@.len(),
            all_in16(s@),
            ss == ints(s@),
            xy as int == corr_xy(ss, start as int, j as int, lag as int),
            xx as int == corr_xx(ss, start as int, j as int),
            yy as int == corr_xx(ss, start - lag, j as int),
            -j * 0x4000_0000 <= xy <= j * 0x4000_0000,
            0 <= xx <= j * 0x4000_0000,
            0 <= yy <= j * 0x4000_0000,
        decreases len - j,
    {
        let x: i64 = s[start + j] as i64;
        let y: i64 = s[start + j - lag] as i64;
        proof {
            assert(in16(s@[start + j] as int));
            assert(in16(s@[start + j - lag] as int));
            assert(-0x4000_0000 <= x * y <= 0x4000_0000 && 0 <= x * x <= 0x4000_0000 && 0 <= y * y
                <= 0x4000_0000) by (nonlinear_arith)
                requires
                    -32768 <= x <= 32767,
                    -32768 <= y <= 32767,
            ;
            assert(start - lag + j == start + j - lag);
        }
        xy = xy + x * y;
        xx = xx + x * x;
        yy = yy + y * y;
        j = j + 1;
    }
    proof {
        lemma_corr_amgm(ss, start as int, len as int, lag as int);
    }
    norm_corr(xy, xx, yy)
}

/// The coarse correlations `r(0 ..= 35)` of the weighted decimated
/// signal over its last 35 samples (`r(0)` is unused and held at 0).
pub open spec fn coarse_corrs(tw: Seq<int>) -> Seq<int> {
    Seq::new(
        36,
        |i: int|
            if i == 0 {
                0
            } else {
                corr_at(tw, 37, 35, i)
            },
    )
}

/// The first index `>= i` in `1 ..= 35` with a negative correlation;
/// 36 when there is none.
pub open spec fn first_negative(r: Seq<int>, i: int) -> int
    decreases 36 - i,
{
    if i >= 36 {
        36
    } else if r[i] < 0 {
        i
    } else {
        first_negative(r, i + 1)
    }
}

/// The coarse (decimated-domain) pitch lag: 18 when no correlation is
/// negative, else the smaller-lag-preferring maximum over
/// `[max(i0, 4), 35]`, `i0` being the first negative correlation.
pub open spec fn coarse_lag(r: Seq<int>, margin: int) -> int {
    let i0 = first_negative(r, 1);
    if i0 >= 36 {
        18
    } else {
        let i1 = max_int(i0, 4);
        i1 + preferred_index(r.subrange(i1, 36), margin, 36 - i1)
    }
}

/// Lowest lag of the refinement search around `4 tds`.
pub open spec fn refine_lo(tds: int) -> int {
    max_int(4 * tds - 2, 1)
}

/// Highest lag of the refinement search around `4 tds`.
pub open spec fn refine_hi(tds: int) -> int {
    min_int(4 * tds + 2, 288 - 4 * tds)
}

/// The refinement correlations over the last `4 tds` samples, for the
/// lags `refine_lo(tds) ..= refine_hi(tds)`.
pub open spec fn refine_corrs(z: Seq<int>, tds: int) -> Seq<int> {
    Seq::new(
        (refine_hi(tds) - refine_lo(tds) + 1) as nat,
        |m: int| corr_at(z, 288 - 4 * tds, 4 * tds, refine_lo(tds) + m),
    )
}

/// The open-loop pitch `(T0, Rmax)`: the coarse lag on the weighted
/// decimated signal, refined on the pre-processed signal by the
/// smaller-lag-preferring maximum over `4 tds - 2 ..= 4 tds + 2`.
pub open spec fn ltp_spec(z: Seq<int>, tds_margin: int, refine_margin: int) -> (int, int) {
    let tw = weight_spec(decimate_spec(z));
    let tds = coarse_lag(coarse_corrs(tw), tds_margin);
    let big = refine_corrs(z, tds);
    let off = preferred_index(big, refine_margin, big.len() as int);
    (refine_lo(tds) + off, big[off])
}


/// The coarse lag lies in `4 ..= 35`.
proof fn lemma_coarse_lag_range(r: Seq<int>, margin: int)
    requires
        r.len() == 36,
    ensures
        4 <= coarse_lag(r, margin) <= 35,
{
    let i0 = first_negative(r, 1);
    lemma_first_negative_range(r, 1);
    if i0 < 36 {
        let i1 = max_int(i0, 4);
        lemma_preferred_index_range(r.subrange(i1, 36), margin, 36 - i1);
    }
}

/// The first negative index lies in `i ..= 36`.
proof fn lemma_first_negative_range(r: Seq<int>, i: int)
    requires
        1 <= i <= 36,
    ensures
        i <= first_negative(r, i) <= 36,
    decreases 36 - i,
{
    if i < 36 {
        lemma_first_negative_range(r, i + 1);
    }
}

/// Open-loop pitch analysis with explicit preference margins for the
/// coarse and the refinement searches (margin 0 is the plain arg max):
/// decimation, weighting, coarse lag search, refinement. Returns
/// `(T0, Rmax)` with `Rmax` in Q15.
pub fn ltp_analysis_with_margins(
    zlpre: &[i32; 288],
    tds_margin_q15: i32,
    refine_margin_q15: i32,
) -> (res: (usize, i32))
    requires
        all_in16(zlpre@),
        in16(tds_margin_q15 as int),
        in16(refine_margin_q15 as int),
    ensures
        res.0 as int == ltp_spec(ints(zlpre@), tds_margin_q15 as int, refine_margin_q15 as int).0,
        res.1 as int == ltp_spec(ints(zlpre@), tds_margin_q15 as int, refine_margin_q15 as int).1,
        14 <= res.0 <= 142,
        -32767 <= res.1 <= 32767,
{
    let ghost z: Seq<int> = ints(zlpre@);
    let t: [i32; 72] = decimate(zlpre);
    proof {
        lemma_same_values_ints(t@, decimate_spec(z));
    }
    let tw: [i32; 72] = weight(&t);
    let ghost tws: Seq<int> = weight_spec(decimate_spec(z));
    proof {
        lemma_same_values_ints(tw@, tws);
    }
    let ghost rs: Seq<int> = coarse_corrs(tws);
    let mut r_vals: Vec<i32> = Vec::new();
    r_vals.push(0);
    let mut i: usize = 1;
    while i <= 35
        invariant
            1 <= i <= 36,
            tws == ints(tw@),
            tw@.len() == 72,
            all_in16(tw@),
            rs == coarse_corrs(tws),
            r_vals@.len() == i,
            forall|u: int| 0 <= u < i ==> #[trigger] r_vals@[u] as int == rs[u],
            forall|u: int| 0 <= u < i ==> -32767 <= #[trigger] r_vals@[u] <= 32767,
        decreases 36 - i,
    {
        let v: i32 = corr_value(&tw, 37, 35, i);
        r_vals.push(v);
        i = i + 1;
    }
    let mut i0: usize = 1;
    while i0 <= 35 && r_vals[i0] >= 0
        invariant
            1 <= i0 <= 36,
            r_vals@.len() == 36,
            forall|u: int| 0 <= u < 36 ==> #[trigger] r_vals@[u] as int == rs[u],
            first_negative(rs, 1) == first_negative(rs, i0 as int),
        decreases 36 - i0,
    {
        i0 = i0 + 1;
    }
    let mut tds: usize = 18;
    if i0 <= 35 {
        let i1: usize = if i0 > 4 {
            i0
        } else {
            4
        };
        let mut sub: Vec<i32> = Vec::new();
        let mut u: usize = i1;
        while u < 36
            invariant
                4 <= i1 <= u <= 36,
                r_vals@.len() == 36,
                forall|w: int| 0 <= w < 36 ==> #[trigger] r_vals@[w] as int == rs[w],
                forall|w: int| 0 <= w < 36 ==> -32767 <= #[trigger] r_vals@[w] <= 32767,
                sub@.len() == u - i1,
                forall|w: int| 0 <= w < u - i1 ==> #[trigger] sub@[w] == r_vals@[w + i1],
            decreases 36 - u,
        {
            sub.push(r_vals[u]);
            u = u + 1;
        }
        proof {
            assert(ints(sub@) =~= rs.subrange(i1 as int, 36));
            assert forall|w: int| 0 <= w < sub@.len() implies in16(#[trigger] sub@[w] as int) by {
                assert(sub@[w] == r_vals@[w + i1]);
            }
        }
        let (off, _best) = preferred_max(sub.as_slice(), tds_margin_q15);
        tds = i1 + off;
    }
    proof {
        lemma_coarse_lag_range(rs, tds_margin_q15 as int);
        assert(tds as int == coarse_lag(rs, tds_margin_q15 as int));
    }
    let t_mid: usize = 4 * tds;
    let lo: usize = if t_mid >= 3 {
        t_mid - 2
    } else {
        1
    };
    let hi: usize = if t_mid + 2 <= 288 - t_mid {
        t_mid + 2
    } else {
        288 - t_mid
    };
    let ghost big: Seq<int> = refine_corrs(z, tds as int);
    let mut big_vals: Vec<i32> = Vec::new();
    let mut lag: usize = lo;
    while lag <= hi
        invariant
            4 <= tds <= 35,
            t_mid == 4 * tds,
            lo as int == refine_lo(tds as int),
            hi as int == refine_hi(tds as int),
            lo <= lag <= hi + 1,
            hi <= 288 - t_mid,
            z == ints(zlpre@),
            all_in16(zlpre@),
            big == refine_corrs(z, tds as int),
            big_vals@.len() == lag - lo,
            forall|w: int| 0 <= w < lag - lo ==> #[trigger] big_vals@[w] as int == big[w],
            forall|w: int| 0 <= w < lag - lo ==> -32767 <= #[trigger] big_vals@[w] <= 32767,
        decreases hi + 1 - lag,
    {
        let v: i32 = corr_value(zlpre, 288 - t_mid, t_mid, lag);
        big_vals.push(v);
        lag = lag + 1;
    }
    proof {
        assert(ints(big_vals@) =~= big);
        assert forall|w: int| 0 <= w < big_vals@.len() implies in16(#[trigger] big_vals@[w] as int) by {}
    }
    let (off, best) = preferred_max(big_vals.as_slice(), refine_margin_q15);
    proof {
        assert(-32767 <= big_vals@[off as int] <= 32767);
    }
    (lo + off, best)
}

/// Open-loop pitch analysis (decimation, weighting, coarse search and
/// refinement) with the default preference margins
/// [`TDS_SMALLER_PITCH_MARGIN_Q15`] and
/// [`REFINE_SMALLER_PITCH_MARGIN_Q15`]. Returns `(T0, Rmax)`.
pub fn ltp_analysis(zlpre: &[i32; 288]) -> (res: (usize, i32))
    requires
        all_in16(zlpre@),
    ensures
        res.0 as int == ltp_spec(
            ints(zlpre@),
            TDS_SMALLER_PITCH_MARGIN_Q15 as int,
            REFINE_SMALLER_PITCH_MARGIN_Q15 as int,
        ).0,
        res.1 as int == ltp_spec(
            ints(zlpre@),
            TDS_SMALLER_PITCH_MARGIN_Q15 as int,
            REFINE_SMALLER_PITCH_MARGIN_Q15 as int,
        ).1,
        14 <= res.0 <= 142,
        -32767 <= res.1 <= 32767,
{
    ltp_analysis_with_margins(zlpre, TDS_SMALLER_PITCH_MARGIN_Q15, REFINE_SMALLER_PITCH_MARGIN_Q15)
}

// -----------------------------------------------------------------------
// Per-sample filters of the concealment
// -----------------------------------------------------------------------

/// One sample of the pre-processing high-pass `H_pre(z)` on its Q14
/// constants: `x B0 + x(n-1) B1 + y(n-1) A1` accumulated with `L_mult`
/// / `L_mac`, rounded back to Q0.
pub open spec fn hpre_spec(x: int, prev_x: int, prev_y: int) -> int {
    round_spec(
        l_shl_spec(
            l_mac_spec(
                l_mac_spec(l_mult_spec(x, B_HP[0] as int), prev_x, B_HP[1] as int),
                prev_y,
                A_HP[1] as int,
            ),
            1,
        ),
    )
}

/// One sample of the pre-processing high-pass
/// `y(n) = x(n) - x(n-1) + (123/128) y(n-1)` on the Q14 constants,
/// realised as an `L_mult` / `L_mac` chain rounded back to Q0.
pub fn hpre_step(x: i32, prev_x: i32, prev_y: i32) -> (r: i32)
    requires
        in16(x as int),
        in16(prev_x as int),
        in16(prev_y as int),
    ensures
        r as int == hpre_spec(x as int, prev_x as int, prev_y as int),
        in16(r as int),
{
    let mut acc: i32 = crate::basicop::l_mult(x, B_HP[0]);
    acc = crate::basicop::l_mac(acc, prev_x, B_HP[1]);
    acc = crate::basicop::l_mac(acc, prev_y, A_HP[1]);
    crate::basicop::round_fx(crate::basicop::l_shl(acc, 1))
}

/// One sample of the higher-band post filter: each Q13 product rounded
/// back to Q0 separately, the two terms combined by the saturating
/// 16-bit `add`.
pub open spec fn hpost_spec(u: int, prev_u: int, prev_v: int) -> int {
    let diff = clamp16(u - prev_u);
    clamp16(
        (B_HP_POST[0] * diff + 4096) / 8192 + (A_HP_POST[1] * prev_v + 4096) / 8192,
    )
}

/// One sample of the higher-band post filter
/// `v(n) = (7303/8192)(u(n) - u(n-1)) + (3207/4096) v(n-1)`: each Q13
/// product is rounded back to Q0 separately and the two terms combine
/// through the saturating 16-bit `add`.
pub fn hpost_step(u: i32, prev_u: i32, prev_v: i32) -> (r: i32)
    requires
        in16(u as int),
        in16(prev_u as int),
        in16(prev_v as int),
    ensures
        r as int == hpost_spec(u as int, prev_u as int, prev_v as int),
        in16(r as int),
{
    let diff: i32 = crate::basicop::sub(u, prev_u);
    proof {
        assert(-0x1000_0000 <= 7303 * diff <= 0x1000_0000) by (nonlinear_arith)
            requires
                -32768 <= diff <= 32767,
        ;
        assert(-0x1000_0000 <= 6414 * prev_v <= 0x1000_0000) by (nonlinear_arith)
            requires
                -32768 <= prev_v <= 32767,
        ;
    }
    let p1: i32 = B_HP_POST[0] * diff + 4096;
    let p2: i32 = A_HP_POST[1] * prev_v + 4096;
    proof {
        crate::basicop::lemma_shr_is_div(p1, 13);
        crate::basicop::lemma_shr_is_div(p2, 13);
        assert(two_pow(13) == 8192) by {
            reveal_with_fuel(two_pow, 14);
        }
    }
    crate::basicop::add(p1 >> 13, p2 >> 13)
}

/// The Q13 accumulation of the LP residual filter over its first `m`
/// taps: `L_mult(x, 4096)` then `L_mac(a(i), past(i))`.
pub open spec fn residual_acc(a: Seq<int>, x: int, past: Seq<int>, m: int) -> int
    decreases m,
{
    if m <= 0 {
        l_mult_spec(x, 4096)
    } else {
        l_mac_spec(residual_acc(a, x, past, m - 1), a[m - 1], past[m - 1])
    }
}

/// The LP residual `e(n) = zl(n) + sum a(i) zl(n - i)` through `A(z)`
/// in Q12, `past(i - 1)` being `zl(n - i)`; rounded back to Q0.
pub open spec fn residual_spec(a: Seq<int>, x: int, past: Seq<int>) -> int {
    round_spec(l_shl_spec(residual_acc(a, x, past, 8), 3))
}

/// LP residual through `A(z)` in Q12: `e(n) = zl(n) + sum a(i)
/// zl(n - i)`, realised as a Q13 accumulator (`L_mult(x, 4096)` and one
/// `L_mac` per tap) rounded back to Q0. `past[i]` is the sample `i + 1`
/// steps back.
pub fn residual_step(a: &[i32; LP_ORDER], x: i32, past: &[i32; LP_ORDER]) -> (r: i32)
    requires
        all_in16(a@),
        all_in16(past@),
        in16(x as int),
    ensures
        r as int == residual_spec(ints(a@), x as int, ints(past@)),
        in16(r as int),
{
    let mut acc: i32 = crate::basicop::l_mult(x, 4096);
    let mut i: usize = 0;
    while i < LP_ORDER
        invariant
            i <= LP_ORDER,
            all_in16(a@),
            all_in16(past@),
            acc as int == residual_acc(ints(a@), x as int, ints(past@), i as int),
        decreases LP_ORDER - i,
    {
        proof {
            assert(in16(a@[i as int] as int));
            assert(in16(past@[i as int] as int));
        }
        acc = crate::basicop::l_mac(acc, a[i], past[i]);
        i = i + 1;
    }
    crate::basicop::round_fx(crate::basicop::l_shl(acc, 3))
}

/// The Q13 accumulation of the LP synthesis filter over its first `m`
/// taps: `L_mult(e, 4096)` then `L_msu(a(i), mem(i))`.
pub open spec fn synthesis_acc(a: Seq<int>, e: int, mem: Seq<int>, m: int) -> int
    decreases m,
{
    if m <= 0 {
        l_mult_spec(e, 4096)
    } else {
        clamp32(synthesis_acc(a, e, mem, m - 1) - l_mult_spec(a[m - 1], mem[m - 1]))
    }
}

/// LP synthesis `yl(n) = e(n) - sum a(i) yl(n - i)` in Q12, rounded back
/// to Q0.
pub open spec fn synthesis_spec(a: Seq<int>, e: int, mem: Seq<int>) -> int {
    round_spec(l_shl_spec(synthesis_acc(a, e, mem, 8), 3))
}

/// LP synthesis in Q12: `yl(n) = e(n) - sum a(i) yl(n - i)`, the same
/// accumulator as [`residual_step`] with `L_msu` taps; `mem[i]` is the
/// output `i + 1` steps back.
pub fn synthesis_step(a: &[i32; LP_ORDER], e: i32, mem: &[i32; LP_ORDER]) -> (r: i32)
    requires
        all_in16(a@),
        all_in16(mem@),
        in16(e as int),
    ensures
        r as int == synthesis_spec(ints(a@), e as int, ints(mem@)),
        in16(r as int),
{
    let mut acc: i32 = crate::basicop::l_mult(e, 4096);
    let mut i: usize = 0;
    while i < LP_ORDER
        invariant
            i <= LP_ORDER,
            all_in16(a@),
            all_in16(mem@),
            acc as int == synthesis_acc(ints(a@), e as int, ints(mem@), i as int),
        decreases LP_ORDER - i,
    {
        proof {
            assert(in16(a@[i as int] as int));
            assert(in16(mem@[i as int] as int));
        }
        acc = crate::basicop::l_msu(acc, a[i], mem[i]);
        i = i + 1;
    }
    crate::basicop::round_fx(crate::basicop::l_shl(acc, 3))
}

/// The number of downward zero crossings (`h(n) <= 0 < h(n - 1)`) among
/// `n` in `1 .. m`.
pub open spec fn crossings(h: Seq<i32>, m: int) -> int
    decreases m,
{
    if m <= 1 {
        0
    } else {
        crossings(h, m - 1) + (if h[m - 1] <= 0 && h[m - 2] > 0 {
            1int
        } else {
            0int
        })
    }
}

/// Zero-crossing rate of `zl(-80 .. -1)`: `hist` holds `zl(-81 .. -1)`
/// oldest first (one extra sample for the look-back); counts the
/// samples with `zl(n) <= 0 < zl(n - 1)`.
pub fn zero_crossing_rate(hist: &[i32; 81]) -> (r: u32)
    ensures
        r as int == crossings(hist@, 81),
        r <= 80,
{
    let mut zcr: u32 = 0;
    let mut n: usize = 1;
    while n < 81
        invariant
            1 <= n <= 81,
            zcr as int == crossings(hist@, n as int),
            zcr < n,
        decreases 81 - n,
    {
        if hist[n] <= 0 && hist[n - 1] > 0 {
            zcr = zcr + 1;
        }
        n = n + 1;
    }
    zcr
}

} // verus!
