//! 24-tap QMF analysis and synthesis on a polyphase structure: the
//! symmetric 24-tap response is held as 12 unique coefficients, and both
//! filters run the even and odd positions of a 24-sample shift register,
//! one in ascending and the other in descending coefficient order.
//!
//! - Analysis: two 16 kHz input samples per call give one lower and one
//!   higher sub-band sample (8 kHz).
//! - Synthesis: one lower / higher sub-band pair per call gives two
//!   16 kHz output samples.
//!
//! The accumulations never leave 32 bits (every sum is bounded by the
//! coefficients' absolute sum times the largest register value), so the
//! filter sums are exact.

use vstd::prelude::*;

use crate::basicop::{lemma_shr_is_div, two_pow};
use crate::predictor::{clamp15, clamp16, in16};

verus! {

/// The 12 unique QMF coefficients.
pub const QMF_COEFFS: [i32; 12] = [3, -11, 12, 32, -210, 951, 3876, -805, 362, -156, 53, -11];

/// `|QMF_COEFFS[k]|` summed over the first `n` coefficients (`asc`) or
/// the last `n` (`!asc`).
pub open spec fn coeff_abs_sum(n: int, asc: bool) -> int
    decreases n,
{
    if n <= 0 {
        0
    } else {
        let c = if asc {
            QMF_COEFFS[n - 1]
        } else {
            QMF_COEFFS[12 - n]
        };
        coeff_abs_sum(n - 1, asc) + (if c < 0 {
            -c
        } else {
            c as int
        })
    }
}

/// The register after two new samples: everything moves two places
/// toward index 0, `a` and `b` land at 22 and 23.
pub open spec fn shift_in(x: [i32; 24], a: i32, b: i32) -> [i32; 24] {
    [
        x[2],
        x[3],
        x[4],
        x[5],
        x[6],
        x[7],
        x[8],
        x[9],
        x[10],
        x[11],
        x[12],
        x[13],
        x[14],
        x[15],
        x[16],
        x[17],
        x[18],
        x[19],
        x[20],
        x[21],
        x[22],
        x[23],
        a,
        b,
    ]
}

/// `sum_{i < n} x[2i] * C[i]`: the even register positions against the
/// ascending coefficients.
pub open spec fn sum_ascending(x: [i32; 24], n: int) -> int
    decreases n,
{
    if n <= 0 {
        0
    } else {
        sum_ascending(x, n - 1) + x[2 * (n - 1)] * QMF_COEFFS[n - 1]
    }
}

/// `sum_{i < n} x[2i + 1] * C[11 - i]`: the odd register positions
/// against the descending coefficients.
pub open spec fn sum_descending(x: [i32; 24], n: int) -> int
    decreases n,
{
    if n <= 0 {
        0
    } else {
        sum_descending(x, n - 1) + x[2 * (n - 1) + 1] * QMF_COEFFS[12 - n]
    }
}

/// The all-zero register.
pub open spec fn zero_register() -> [i32; 24] {
    [0i32, 0, 0, 0, 0, 0, 0, 0, 0, 0, 0, 0, 0, 0, 0, 0, 0, 0, 0, 0, 0, 0, 0, 0]
}

/// Every register value lies within `±bound`.
pub open spec fn register_within(x: [i32; 24], bound: int) -> bool {
    forall|i: int| 0 <= i < 24 ==> -bound <= #[trigger] x[i] <= bound
}

/// Analysis filter state: a 24-sample shift register, the newest samples
/// at 22 and 23.
#[derive(Clone, Debug)]
pub struct QmfAnalysis {
    x: [i32; 24],
}

/// Synthesis filter state: a 24-sample shift register fed with
/// `rlow + rhigh` and `rlow - rhigh`.
#[derive(Clone, Debug)]
pub struct QmfSynthesis {
    x: [i32; 24],
}

impl QmfAnalysis {
    /// The register holds 16-bit samples.
    pub closed spec fn wf(self) -> bool {
        register_within(self.x, 32768)
    }

    /// The register is all zero.
    pub closed spec fn is_zero(self) -> bool {
        self.x == zero_register()
    }

    /// One analysis step on `(s0, s1)`: the next state and the lower and
    /// higher sub-band samples `clip15((even ± odd) >> 14)`.
    pub closed spec fn process_spec(self, s0: i16, s1: i16) -> (QmfAnalysis, (i16, i16)) {
        let x = shift_in(self.x, s0 as i32, s1 as i32);
        let odd = sum_ascending(x, 12);
        let even = sum_descending(x, 12);
        (
            QmfAnalysis { x },
            (clamp15((even + odd) / 16384) as i16, clamp15((even - odd) / 16384) as i16),
        )
    }
}

impl QmfSynthesis {
    /// The register holds sums and differences of 16-bit samples.
    pub closed spec fn wf(self) -> bool {
        register_within(self.x, 65536)
    }

    /// The register is all zero.
    pub closed spec fn is_zero(self) -> bool {
        self.x == zero_register()
    }

    /// One synthesis step on `(rlow, rhigh)`: the next state and the two
    /// output samples `clip16(odd_sum >> 11)`, `clip16(even_sum >> 11)`.
    pub closed spec fn process_spec(self, rlow: i16, rhigh: i16) -> (QmfSynthesis, (i16, i16)) {
        let x = shift_in(self.x, (rlow + rhigh) as i32, (rlow - rhigh) as i32);
        let out2 = sum_ascending(x, 12);
        let out1 = sum_descending(x, 12);
        (QmfSynthesis { x }, (clamp16(out1 / 2048) as i16, clamp16(out2 / 2048) as i16))
    }
}

/// The coefficients' absolute sums.
proof fn lemma_coeff_abs_sums()
    ensures
        forall|n: int| 0 <= n <= 12 ==> 0 <= #[trigger] coeff_abs_sum(n, true) <= 6482,
        forall|n: int| 0 <= n <= 12 ==> 0 <= #[trigger] coeff_abs_sum(n, false) <= 6482,
{
    reveal_with_fuel(coeff_abs_sum, 13);
    assert(coeff_abs_sum(12, true) == 6482);
    assert(coeff_abs_sum(12, false) == 6482);
    assert forall|n: int| 0 <= n <= 12 implies 0 <= #[trigger] coeff_abs_sum(n, true) <= 6482 by {
        lemma_abs_sum_monotone(n, 12, true);
    }
    assert forall|n: int| 0 <= n <= 12 implies 0 <= #[trigger] coeff_abs_sum(n, false) <= 6482 by {
        lemma_abs_sum_monotone(n, 12, false);
    }
}

proof fn lemma_abs_sum_monotone(m: int, n: int, asc: bool)
    requires
        0 <= m <= n <= 12,
    ensures
        0 <= coeff_abs_sum(m, asc) <= coeff_abs_sum(n, asc),
    decreases n,
{
    if m < n {
        lemma_abs_sum_monotone(m, n - 1, asc);
    } else if m > 0 {
        lemma_abs_sum_monotone(m - 1, m - 1, asc);
    }
}

/// A product of a register value and a coefficient is bounded by the
/// coefficient's magnitude.
proof fn lemma_tap_bound(v: int, c: int, bound: int)
    requires
        -bound <= v <= bound,
        bound >= 0,
    ensures
        -(bound * (if c < 0 {
            -c
        } else {
            c
        })) <= v * c <= bound * (if c < 0 {
            -c
        } else {
            c
        }),
{
    if c < 0 {
        assert(-(bound * -c) <= v * c <= bound * -c) by (nonlinear_arith)
            requires
                -bound <= v <= bound,
                c < 0,
        ;
    } else {
        assert(-(bound * c) <= v * c <= bound * c) by (nonlinear_arith)
            requires
                -bound <= v <= bound,
                c >= 0,
        ;
    }
}

/// The two filter sums over a register within `±bound`.
fn filter_sums(x: &[i32; 24], bound: i32) -> (r: (i32, i32))
    requires
        bound == 32768 || bound == 65536,
        register_within(*x, bound as int),
    ensures
        r.0 == sum_ascending(*x, 12),
        r.1 == sum_descending(*x, 12),
        -(bound * 6482) <= r.0 <= bound * 6482,
        -(bound * 6482) <= r.1 <= bound * 6482,
{
    proof {
        lemma_coeff_abs_sums();
    }
    let mut asc: i32 = 0;
    let mut desc: i32 = 0;
    let mut i: usize = 0;
    while i < 12
        invariant
            i <= 12,
            bound == 32768 || bound == 65536,
            register_within(*x, bound as int),
            forall|n: int| 0 <= n <= 12 ==> 0 <= #[trigger] coeff_abs_sum(n, true) <= 6482,
            forall|n: int| 0 <= n <= 12 ==> 0 <= #[trigger] coeff_abs_sum(n, false) <= 6482,
            asc == sum_ascending(*x, i as int),
            desc == sum_descending(*x, i as int),
            -(bound * coeff_abs_sum(i as int, true)) <= asc <= bound * coeff_abs_sum(i as int, true),
            -(bound * coeff_abs_sum(i as int, false)) <= desc <= bound * coeff_abs_sum(i as int, false),
        decreases 12 - i,
    {
        let xa: i32 = x[2 * i];
        let xd: i32 = x[2 * i + 1];
        let ca: i32 = QMF_COEFFS[i];
        let cd: i32 = QMF_COEFFS[11 - i];
        proof {
            assert(-bound <= xa <= bound && -bound <= xd <= bound);
            lemma_tap_bound(xa as int, ca as int, bound as int);
            lemma_tap_bound(xd as int, cd as int, bound as int);
            let k = i as int;
            assert(coeff_abs_sum(k + 1, true) == coeff_abs_sum(k, true) + (if ca < 0 {
                -ca
            } else {
                ca as int
            }));
            assert(coeff_abs_sum(k + 1, false) == coeff_abs_sum(k, false) + (if cd < 0 {
                -cd
            } else {
                cd as int
            }));
            assert(bound * coeff_abs_sum(k + 1, true) <= bound * 6482) by (nonlinear_arith)
                requires
                    coeff_abs_sum(k + 1, true) <= 6482,
                    bound > 0,
            ;
            assert(bound * coeff_abs_sum(k + 1, false) <= bound * 6482) by (nonlinear_arith)
                requires
                    coeff_abs_sum(k + 1, false) <= 6482,
                    bound > 0,
            ;
            let sa0 = coeff_abs_sum(k, true);
            let sa1 = coeff_abs_sum(k + 1, true);
            let sd0 = coeff_abs_sum(k, false);
            let sd1 = coeff_abs_sum(k + 1, false);
            let aa: int = if ca < 0 {
                -ca
            } else {
                ca as int
            };
            let ad: int = if cd < 0 {
                -cd
            } else {
                cd as int
            };
            assert(bound * sa1 == bound * sa0 + bound * aa) by (nonlinear_arith)
                requires
                    sa1 == sa0 + aa,
            ;
            assert(bound * sd1 == bound * sd0 + bound * ad) by (nonlinear_arith)
                requires
                    sd1 == sd0 + ad,
            ;
        }
        asc = asc + xa * ca;
        desc = desc + xd * cd;
        i = i + 1;
    }
    (asc, desc)
}

/// Shift two samples into a register.
fn shift_register(x: &mut [i32; 24], a: i32, b: i32)
    ensures
        *final(x) == shift_in(*old(x), a, b),
{
    let mut i: usize = 0;
    while i < 22
        invariant
            i <= 22,
            forall|k: int| 0 <= k < i ==> x[k] == old(x)[k + 2],
            forall|k: int| i <= k < 24 ==> x[k] == old(x)[k],
        decreases 22 - i,
    {
        x[i] = x[i + 2];
        i = i + 1;
    }
    x[22] = a;
    x[23] = b;
    assert(*x =~= shift_in(*old(x), a, b));
}

fn clip15(v: i32) -> (r: i16)
    ensures
        r == clamp15(v as int),
{
    if v < -16_384 {
        -16_384
    } else if v > 16_383 {
        16_383
    } else {
        v as i16
    }
}

fn clip16(v: i32) -> (r: i16)
    ensures
        r == clamp16(v as int),
{
    if v < -32_768 {
        -32_768
    } else if v > 32_767 {
        32_767
    } else {
        v as i16
    }
}

impl QmfAnalysis {
    /// An analysis filter with an all-zero register.
    pub fn new() -> (r: Self)
        ensures
            r.wf(),
            r.is_zero(),
    {
        QmfAnalysis { x: [0i32, 0, 0, 0, 0, 0, 0, 0, 0, 0, 0, 0, 0, 0, 0, 0, 0, 0, 0, 0, 0, 0, 0, 0] }
    }

    /// Take two 16 kHz samples (`s0` first) and return the
    /// `(lower, higher)` sub-band pair at 8 kHz.
    pub fn process(&mut self, s0: i16, s1: i16) -> (r: (i16, i16))
        requires
            old(self).wf(),
        ensures
            final(self).wf(),
            (*final(self), r) == old(self).process_spec(s0, s1),
    {
        shift_register(&mut self.x, s0 as i32, s1 as i32);
        proof {
            assert(register_within(self.x, 32768));
        }
        let (sumodd, sumeven) = filter_sums(&self.x, 32768);
        let lo: i32 = sumeven + sumodd;
        let hi: i32 = sumeven - sumodd;
        proof {
            lemma_shr_is_div(lo, 14);
            lemma_shr_is_div(hi, 14);
            reveal_with_fuel(two_pow, 15);
        }
        (clip15(lo >> 14), clip15(hi >> 14))
    }
}

impl QmfSynthesis {
    /// A synthesis filter with an all-zero register.
    pub fn new() -> (r: Self)
        ensures
            r.wf(),
            r.is_zero(),
    {
        QmfSynthesis { x: [0i32, 0, 0, 0, 0, 0, 0, 0, 0, 0, 0, 0, 0, 0, 0, 0, 0, 0, 0, 0, 0, 0, 0, 0] }
    }

    /// Take one reconstructed `(rlow, rhigh)` pair and return two 16 kHz
    /// output samples.
    pub fn process(&mut self, rlow: i16, rhigh: i16) -> (r: (i16, i16))
        requires
            old(self).wf(),
        ensures
            final(self).wf(),
            (*final(self), r) == old(self).process_spec(rlow, rhigh),
    {
        shift_register(&mut self.x, rlow as i32 + rhigh as i32, rlow as i32 - rhigh as i32);
        proof {
            assert(register_within(self.x, 65536));
        }
        let (xout2, xout1) = filter_sums(&self.x, 65536);
        proof {
            lemma_shr_is_div(xout1, 11);
            lemma_shr_is_div(xout2, 11);
            reveal_with_fuel(two_pow, 12);
        }
        (clip16(xout1 >> 11), clip16(xout2 >> 11))
    }
}

impl Default for QmfAnalysis {
    /// The all-zero filter of [`QmfAnalysis::new`].
    fn default() -> (r: Self)
        ensures
            r.wf(),
            r.is_zero(),
    {
        Self::new()
    }
}

impl Default for QmfSynthesis {
    /// The all-zero filter of [`QmfSynthesis::new`].
    fn default() -> (r: Self)
        ensures
            r.wf(),
            r.is_zero(),
    {
        Self::new()
    }
}

// -----------------------------------------------------------------------
// Laws
// -----------------------------------------------------------------------

/// Silence stays silent: an all-zero register fed zeros gives zero
/// outputs and stays all zero, in both filters.
pub proof fn lemma_qmf_silence(a: QmfAnalysis, s: QmfSynthesis)
    requires
        a.is_zero(),
        s.is_zero(),
    ensures
        a.process_spec(0, 0).0.is_zero(),
        a.process_spec(0, 0).1 == (0i16, 0i16),
        s.process_spec(0, 0).0.is_zero(),
        s.process_spec(0, 0).1 == (0i16, 0i16),
{
    let x = shift_in(a.x, 0, 0);
    assert(x =~= zero_register());
    assert forall|n: int| 0 <= n <= 12 implies #[trigger] sum_ascending(x, n) == 0 && sum_descending(x, n) == 0 by {
        lemma_zero_sums(x, n);
    }
    let y = shift_in(s.x, 0, 0);
    assert(y =~= zero_register());
    lemma_zero_sums(y, 12);
}

proof fn lemma_zero_sums(x: [i32; 24], n: int)
    requires
        x == zero_register(),
        0 <= n <= 12,
    ensures
        sum_ascending(x, n) == 0,
        sum_descending(x, n) == 0,
    decreases n,
{
    if n > 0 {
        lemma_zero_sums(x, n - 1);
        let u = x[2 * (n - 1)] as int;
        let v = x[2 * (n - 1) + 1] as int;
        let cu = QMF_COEFFS[n - 1] as int;
        let cv = QMF_COEFFS[12 - n] as int;
        assert(u == 0 && v == 0);
        assert(u * cu == 0 && v * cv == 0) by (nonlinear_arith)
            requires
                u == 0,
                v == 0,
        ;
    }
}

/// The analysis filter after `n` calls on the constant pair `(c, c)`.
pub open spec fn analysis_feed(s: QmfAnalysis, c: i16, n: nat) -> QmfAnalysis
    decreases n,
{
    if n == 0 {
        s
    } else {
        analysis_feed(s, c, (n - 1) as nat).process_spec(c, c).0
    }
}

/// The synthesis filter after `n` calls on the pair `(c, 0)`.
pub open spec fn synthesis_feed(s: QmfSynthesis, c: i16, n: nat) -> QmfSynthesis
    decreases n,
{
    if n == 0 {
        s
    } else {
        synthesis_feed(s, c, (n - 1) as nat).process_spec(c, 0).0
    }
}

/// The newest `2 k` register places (all of them from `k = 12` on) hold
/// `v`.
pub open spec fn tail_holds(x: [i32; 24], v: i32, k: int) -> bool {
    forall|i: int| 24 - 2 * k <= i < 24 && 0 <= i ==> #[trigger] x[i] == v
}

proof fn lemma_shift_fills(x: [i32; 24], v: i32, k: int)
    requires
        0 <= k,
        tail_holds(x, v, k),
    ensures
        tail_holds(shift_in(x, v, v), v, k + 1),
{
    let y = shift_in(x, v, v);
    assert forall|i: int| 24 - 2 * (k + 1) <= i < 24 && 0 <= i implies #[trigger] y[i] == v by {
        if i < 22 {
            assert(y[i] == x[i + 2]);
        }
    }
}

proof fn lemma_constant_sums(x: [i32; 24], v: i32)
    requires
        tail_holds(x, v, 12),
    ensures
        sum_ascending(x, 12) == 4096 * v,
        sum_descending(x, 12) == 4096 * v,
{
    assert(x[0] == v && x[1] == v && x[2] == v && x[3] == v && x[4] == v && x[5] == v);
    assert(x[6] == v && x[7] == v && x[8] == v && x[9] == v && x[10] == v && x[11] == v);
    assert(x[12] == v && x[13] == v && x[14] == v && x[15] == v && x[16] == v && x[17] == v);
    assert(x[18] == v && x[19] == v && x[20] == v && x[21] == v && x[22] == v && x[23] == v);
    assert(QMF_COEFFS[0] == 3);
    assert(QMF_COEFFS[1] == -11);
    assert(QMF_COEFFS[2] == 12);
    assert(QMF_COEFFS[3] == 32);
    assert(QMF_COEFFS[4] == -210);
    assert(QMF_COEFFS[5] == 951);
    assert(QMF_COEFFS[6] == 3876);
    assert(QMF_COEFFS[7] == -805);
    assert(QMF_COEFFS[8] == 362);
    assert(QMF_COEFFS[9] == -156);
    assert(QMF_COEFFS[10] == 53);
    assert(QMF_COEFFS[11] == -11);
    assert(sum_ascending(x, 0) == 0);
    assert(sum_descending(x, 0) == 0);
    assert(x[0] * QMF_COEFFS[0] == 3 * v) by (nonlinear_arith)
        requires
            x[0] == v,
            QMF_COEFFS[0] == 3,
    ;
    assert(x[1] * QMF_COEFFS[11] == -11 * v) by (nonlinear_arith)
        requires
            x[1] == v,
            QMF_COEFFS[11] == -11,
    ;
    assert(sum_ascending(x, 1) == 3 * v);
    assert(sum_descending(x, 1) == -11 * v);
    assert(x[2] * QMF_COEFFS[1] == -11 * v) by (nonlinear_arith)
        requires
            x[2] == v,
            QMF_COEFFS[1] == -11,
    ;
    assert(x[3] * QMF_COEFFS[10] == 53 * v) by (nonlinear_arith)
        requires
            x[3] == v,
            QMF_COEFFS[10] == 53,
    ;
    assert(sum_ascending(x, 2) == -8 * v);
    assert(sum_descending(x, 2) == 42 * v);
    assert(x[4] * QMF_COEFFS[2] == 12 * v) by (nonlinear_arith)
        requires
            x[4] == v,
            QMF_COEFFS[2] == 12,
    ;
    assert(x[5] * QMF_COEFFS[9] == -156 * v) by (nonlinear_arith)
        requires
            x[5] == v,
            QMF_COEFFS[9] == -156,
    ;
    assert(sum_ascending(x, 3) == 4 * v);
    assert(sum_descending(x, 3) == -114 * v);
    assert(x[6] * QMF_COEFFS[3] == 32 * v) by (nonlinear_arith)
        requires
            x[6] == v,
            QMF_COEFFS[3] == 32,
    ;
    assert(x[7] * QMF_COEFFS[8] == 362 * v) by (nonlinear_arith)
        requires
            x[7] == v,
            QMF_COEFFS[8] == 362,
    ;
    assert(sum_ascending(x, 4) == 36 * v);
    assert(sum_descending(x, 4) == 248 * v);
    assert(x[8] * QMF_COEFFS[4] == -210 * v) by (nonlinear_arith)
        requires
            x[8] == v,
            QMF_COEFFS[4] == -210,
    ;
    assert(x[9] * QMF_COEFFS[7] == -805 * v) by (nonlinear_arith)
        requires
            x[9] == v,
            QMF_COEFFS[7] == -805,
    ;
    assert(sum_ascending(x, 5) == -174 * v);
    assert(sum_descending(x, 5) == -557 * v);
    assert(x[10] * QMF_COEFFS[5] == 951 * v) by (nonlinear_arith)
        requires
            x[10] == v,
            QMF_COEFFS[5] == 951,
    ;
    assert(x[11] * QMF_COEFFS[6] == 3876 * v) by (nonlinear_arith)
        requires
            x[11] == v,
            QMF_COEFFS[6] == 3876,
    ;
    assert(sum_ascending(x, 6) == 777 * v);
    assert(sum_descending(x, 6) == 3319 * v);
    assert(x[12] * QMF_COEFFS[6] == 3876 * v) by (nonlinear_arith)
        requires
            x[12] == v,
            QMF_COEFFS[6] == 3876,
    ;
    assert(x[13] * QMF_COEFFS[5] == 951 * v) by (nonlinear_arith)
        requires
            x[13] == v,
            QMF_COEFFS[5] == 951,
    ;
    assert(sum_ascending(x, 7) == 4653 * v);
    assert(sum_descending(x, 7) == 4270 * v);
    assert(x[14] * QMF_COEFFS[7] == -805 * v) by (nonlinear_arith)
        requires
            x[14] == v,
            QMF_COEFFS[7] == -805,
    ;
    assert(x[15] * QMF_COEFFS[4] == -210 * v) by (nonlinear_arith)
        requires
            x[15] == v,
            QMF_COEFFS[4] == -210,
    ;
    assert(sum_ascending(x, 8) == 3848 * v);
    assert(sum_descending(x, 8) == 4060 * v);
    assert(x[16] * QMF_COEFFS[8] == 362 * v) by (nonlinear_arith)
        requires
            x[16] == v,
            QMF_COEFFS[8] == 362,
    ;
    assert(x[17] * QMF_COEFFS[3] == 32 * v) by (nonlinear_arith)
        requires
            x[17] == v,
            QMF_COEFFS[3] == 32,
    ;
    assert(sum_ascending(x, 9) == 4210 * v);
    assert(sum_descending(x, 9) == 4092 * v);
    assert(x[18] * QMF_COEFFS[9] == -156 * v) by (nonlinear_arith)
        requires
            x[18] == v,
            QMF_COEFFS[9] == -156,
    ;
    assert(x[19] * QMF_COEFFS[2] == 12 * v) by (nonlinear_arith)
        requires
            x[19] == v,
            QMF_COEFFS[2] == 12,
    ;
    assert(sum_ascending(x, 10) == 4054 * v);
    assert(sum_descending(x, 10) == 4104 * v);
    assert(x[20] * QMF_COEFFS[10] == 53 * v) by (nonlinear_arith)
        requires
            x[20] == v,
            QMF_COEFFS[10] == 53,
    ;
    assert(x[21] * QMF_COEFFS[1] == -11 * v) by (nonlinear_arith)
        requires
            x[21] == v,
            QMF_COEFFS[1] == -11,
    ;
    assert(sum_ascending(x, 11) == 4107 * v);
    assert(sum_descending(x, 11) == 4093 * v);
    assert(x[22] * QMF_COEFFS[11] == -11 * v) by (nonlinear_arith)
        requires
            x[22] == v,
            QMF_COEFFS[11] == -11,
    ;
    assert(x[23] * QMF_COEFFS[0] == 3 * v) by (nonlinear_arith)
        requires
            x[23] == v,
            QMF_COEFFS[0] == 3,
    ;
    assert(sum_ascending(x, 12) == 4096 * v);
    assert(sum_descending(x, 12) == 4096 * v);
}

proof fn lemma_analysis_feed_fills(s: QmfAnalysis, c: i16, n: nat)
    ensures
        tail_holds(analysis_feed(s, c, n).x, c as i32, if n <= 12 { n as int } else { 12 }),
    decreases n,
{
    if n > 0 {
        let k: int = if n - 1 <= 12 { n - 1 } else { 12 };
        lemma_analysis_feed_fills(s, c, (n - 1) as nat);
        lemma_shift_fills(analysis_feed(s, c, (n - 1) as nat).x, c as i32, k);
    }
}

proof fn lemma_synthesis_feed_fills(s: QmfSynthesis, c: i16, n: nat)
    ensures
        tail_holds(synthesis_feed(s, c, n).x, c as i32, if n <= 12 { n as int } else { 12 }),
    decreases n,
{
    if n > 0 {
        let k: int = if n - 1 <= 12 { n - 1 } else { 12 };
        lemma_synthesis_feed_fills(s, c, (n - 1) as nat);
        let x = synthesis_feed(s, c, (n - 1) as nat).x;
        assert((c + 0i16) as i32 == c as i32 && (c - 0i16) as i32 == c as i32);
        lemma_shift_fills(x, c as i32, k);
    }
}

/// DC through the analysis filter: once the register has filled (from
/// the twelfth call on), a constant input `c` comes out in the lower
/// sub-band at half amplitude and the higher sub-band is silent,
/// whatever the filter held before.
pub proof fn lemma_analysis_dc(s: QmfAnalysis, c: i16, n: nat)
    requires
        n >= 11,
    ensures
        analysis_feed(s, c, n).process_spec(c, c).1 == ((c as int / 2) as i16, 0i16),
{
    lemma_analysis_feed_fills(s, c, n);
    let x = analysis_feed(s, c, n).x;
    lemma_shift_fills(x, c as i32, 11);
    let y = shift_in(x, c as i32, c as i32);
    assert(tail_holds(y, c as i32, 12));
    lemma_constant_sums(y, c as i32);
    assert((4096 * c + 4096 * c) / 16384 == c as int / 2);
    assert((4096 * c - 4096 * c) / 16384 == 0);
}

/// A constant lower sub-band through the synthesis filter: once the
/// register has filled (from the twelfth call on), `rlow = c` with a
/// silent higher sub-band gives two equal output samples `2 c`, the
/// DC level the analysis halved.
pub proof fn lemma_synthesis_dc(s: QmfSynthesis, c: i16, n: nat)
    requires
        n >= 11,
    ensures
        synthesis_feed(s, c, n).process_spec(c, 0).1 == (clamp16(2 * c) as i16, clamp16(2 * c) as i16),
{
    lemma_synthesis_feed_fills(s, c, n);
    let x = synthesis_feed(s, c, n).x;
    assert((c + 0i16) as i32 == c as i32 && (c - 0i16) as i32 == c as i32);
    lemma_shift_fills(x, c as i32, 11);
    let y = shift_in(x, c as i32, c as i32);
    assert(tail_holds(y, c as i32, 12));
    lemma_constant_sums(y, c as i32);
    assert((4096 * c) / 2048 == 2 * c);
}

} // verus!
