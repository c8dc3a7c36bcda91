//! Shared SB-ADPCM predictor and scale-factor adaptation.
//!
//! Both the receive path (decoder) and the embedded local decoder of
//! the transmit path (encoder) run the same per-sub-band loop: the
//! 2-pole / 6-zero adaptive predictor (blocks FILTEZ, FILTEP, PREDIC,
//! PARREC, UPPOL1, UPPOL2, UPZERO) and the logarithmic scale-factor
//! adaptation (LOGSCL / LOGSCH, SCALEL / SCALEH Method 2). This module
//! is the single home of that loop; its contracts are stated over the
//! integer arithmetic of the Recommendation's operators:
//!
//! * `+` / `-` saturate to the signed 16-bit range ([`clamp16`]);
//! * `*` is `(A * B) >> 15`, i.e. the floor of `A * B / 2^15` ([`q15`]).

use vstd::prelude::*;
use crate::tables::{
    lemma_table_ranges, IH2_FROM_IH, IL4_FROM_IL4, ILB, QQ2, QQ4, SIH_FROM_IH, SIL_FROM_IL4, WH, WL,
};

verus! {

/// The signed 16-bit range of the Recommendation's data words.
pub open spec fn in16(x: int) -> bool {
    -32768 <= x <= 32767
}

/// Saturation into the 15-bit range of the LIMIT blocks (Table 9).
pub open spec fn clamp15(r: int) -> int {
    if r < -16384 {
        -16384
    } else if r > 16383 {
        16383
    } else {
        r
    }
}

/// Saturation of an integer into the signed 16-bit range.
pub open spec fn clamp16(x: int) -> int {
    if x > 32767 {
        32767
    } else if x < -32768 {
        -32768
    } else {
        x
    }
}

/// The Recommendation's `*` operator: `(A * B) >> 15`, the floor of
/// `A * B / 2^15`.
pub open spec fn q15(a: int, b: int) -> int {
    (a * b) / 32768
}

/// Arithmetic right shift by 15 is the floor division by 2^15.
pub proof fn lemma_shr15(x: i32)
    ensures
        (x >> 15) as int == x as int / 32768,
{
    assert((x >> 15) as int == x as int / 32768) by (bit_vector);
}

/// Bound on a product of two bounded integers.
pub proof fn lemma_mul_bound(a: int, b: int, ka: int, kb: int)
    requires
        -ka <= a <= ka,
        -kb <= b <= kb,
    ensures
        -(ka * kb) <= a * b <= ka * kb,
{
    assert(-(ka * kb) <= a * b <= ka * kb) by (nonlinear_arith)
        requires
            -ka <= a <= ka,
            -kb <= b <= kb,
    ;
}

/// Saturate into the signed 16-bit range.
pub fn sat16(x: i32) -> (r: i32)
    ensures
        r == clamp16(x as int),
{
    if x > 32767 {
        32767
    } else if x < -32768 {
        -32768
    } else {
        x
    }
}

/// The Recommendation's saturating `+` operator; total over `i32`.
pub fn add_sat(a: i32, b: i32) -> (r: i32)
    ensures
        r == clamp16(a + b),
{
    let s: i64 = a as i64 + b as i64;
    if s > 32767 {
        32767
    } else if s < -32768 {
        -32768
    } else {
        s as i32
    }
}

/// The Recommendation's saturating `-` operator; total over `i32`.
pub fn sub_sat(a: i32, b: i32) -> (r: i32)
    ensures
        r == clamp16(a - b),
{
    let s: i64 = a as i64 - b as i64;
    if s > 32767 {
        32767
    } else if s < -32768 {
        -32768
    } else {
        s as i32
    }
}

/// The Recommendation's `*` operator, `(A * B) >> 15` with a 32-bit
/// intermediate product.
pub fn mul_q15(a: i32, b: i32) -> (r: i32)
    requires
        i32::MIN <= a * b <= i32::MAX,
    ensures
        r == q15(a as int, b as int),
{
    let p: i32 = a * b;
    proof {
        lemma_shr15(p);
    }
    p >> 15
}

/// SCALEL / SCALEH Method 2: the linear scale factor from the
/// logarithmic one through the ILB table.
pub open spec fn linear_scale_spec(nbpl: i32, base_shift: i32) -> i32 {
    let wd1 = (nbpl >> 6) & 31i32;
    let wd2 = nbpl >> 11;
    let shift = (base_shift - wd2) as i32;
    let ilb = ILB[wd1 as int];
    let wd3 = if shift >= 0 {
        ilb >> (shift as u32)
    } else {
        ilb << ((0 - shift) as u32)
    };
    wd3 << 2u32
}

proof fn lemma_scale_bits(nbpl: i32, top: i32)
    requires
        0 <= nbpl,
        nbpl >> 11 <= top,
        top <= 11,
    ensures
        0 <= (nbpl >> 6) & 31i32 <= 31,
        0 <= nbpl >> 11 <= top,
{
    assert(0 <= (nbpl >> 6) & 31i32 <= 31) by (bit_vector)
        requires
            0 <= nbpl,
    ;
    assert(0 <= nbpl >> 11) by (bit_vector)
        requires
            0 <= nbpl,
    ;
}

proof fn lemma_scale_value(ilb: i32, shift: i32)
    requires
        2048 <= ilb <= 4008,
        -1 <= shift <= 10,
    ensures
        ({
            let wd3 = if shift >= 0 {
                ilb >> (shift as u32)
            } else {
                ilb << ((0 - shift) as u32)
            };
            0 <= wd3 << 2u32 <= 32064
        }),
{
    if shift >= 0 {
        let sh: u32 = shift as u32;
        assert(0 <= (ilb >> sh) << 2u32 <= 32064) by (bit_vector)
            requires
                2048 <= ilb <= 4008,
                sh <= 10,
        ;
    } else {
        assert(shift == -1);
        assert(0 <= (ilb << 1u32) << 2u32 <= 32064) by (bit_vector)
            requires
                2048 <= ilb <= 4008,
        ;
    }
}

/// The linear scale factor stays within `0 ..= 32064` over the range
/// of the logarithmic scale factor allowed for each sub-band.
pub proof fn lemma_linear_scale_range(nbpl: i32, base_shift: i32)
    requires
        base_shift == 8 || base_shift == 10,
        0 <= nbpl <= (base_shift + 1) * 2048,
    ensures
        0 <= linear_scale_spec(nbpl, base_shift) <= 32064,
{
    assert(nbpl >> 11 <= base_shift + 1) by (bit_vector)
        requires
            0 <= nbpl <= (base_shift + 1) * 2048,
            base_shift <= 10,
    ;
    lemma_scale_bits(nbpl, (base_shift + 1) as i32);
    lemma_table_ranges();
    let wd1 = (nbpl >> 6) & 31i32;
    let shift = (base_shift - (nbpl >> 11)) as i32;
    lemma_scale_value(ILB[wd1 as int], shift);
}

/// SCALEL / SCALEH Method 2 (`base_shift` is 8 for the lower sub-band
/// and 10 for the higher one).
pub fn linear_scale_method2(nbpl: i32, base_shift: i32) -> (r: i32)
    requires
        base_shift == 8 || base_shift == 10,
        0 <= nbpl <= (base_shift + 1) * 2048,
    ensures
        r == linear_scale_spec(nbpl, base_shift),
        0 <= r <= 32064,
{
    proof {
        lemma_linear_scale_range(nbpl, base_shift);
        assert(nbpl >> 11 <= base_shift + 1) by (bit_vector)
            requires
                0 <= nbpl <= (base_shift + 1) * 2048,
                base_shift <= 10,
        ;
        lemma_scale_bits(nbpl, (base_shift + 1) as i32);
    }
    let wd1: i32 = (nbpl >> 6) & 31;
    let wd2: i32 = nbpl >> 11;
    let shift: i32 = base_shift - wd2;
    let ilb: i32 = ILB[wd1 as usize];
    let wd3: i32 = if shift >= 0 {
        ilb >> (shift as u32)
    } else {
        ilb << ((0 - shift) as u32)
    };
    wd3 << 2u32
}

} // verus!

verus! {

/// Per-sub-band ADPCM predictor and scale-factor state (clauses
/// 3.4 to 3.6). The lower and the higher sub-band share the structure
/// and differ only in the scale-factor limits.
#[derive(Debug, Clone)]
pub struct SubBandState {
    /// Quantized difference signal `d(n)`, `d(n-1) .. d(n-6)`.
    pub dlt: [i32; 7],
    /// Partially reconstructed signal `p(n)`, `p(n-1)`, `p(n-2)`.
    pub plt: [i32; 3],
    /// Reconstructed signal `r(n)`, `r(n-1)`, `r(n-2)`.
    pub rlt: [i32; 3],
    /// Pole-section coefficient `a1`.
    pub al1: i32,
    /// Pole-section coefficient `a2`.
    pub al2: i32,
    /// Zero-section coefficients `b1 .. b6` (index 0 unused).
    pub bl: [i32; 7],
    /// Logarithmic scale factor.
    pub nbl: i32,
    /// Linear scale factor.
    pub detl: i32,
    /// Upper limit of the logarithmic scale factor: 18432 for the lower
    /// sub-band, 22528 for the higher.
    pub nbpl_cap: i32,
    /// Linear scale factor after a reset: 32 for the lower sub-band,
    /// 8 for the higher.
    pub detl_reset: i32,
}

impl SubBandState {
    /// Shift of the SCALEL / SCALEH conversion for this sub-band.
    pub open spec fn base_shift(self) -> i32 {
        if self.nbpl_cap == 18432 {
            8
        } else {
            10
        }
    }

    /// Whether this is the lower sub-band state.
    pub open spec fn is_lower(self) -> bool {
        self.nbpl_cap == 18432 && self.detl_reset == 32
    }

    /// Whether this is the higher sub-band state.
    pub open spec fn is_higher(self) -> bool {
        self.nbpl_cap == 22528 && self.detl_reset == 8
    }

    /// The ranges every state reachable from a reset stays within.
    pub open spec fn wf(self) -> bool {
        &&& self.is_lower() || self.is_higher()
        &&& forall|i: int| 0 <= i < 7 ==> in16(#[trigger] self.dlt[i] as int)
        &&& forall|i: int| 0 <= i < 7 ==> in16(#[trigger] self.bl[i] as int)
        &&& forall|i: int| 0 <= i < 3 ==> in16(#[trigger] self.plt[i] as int)
        &&& forall|i: int| 0 <= i < 3 ==> in16(#[trigger] self.rlt[i] as int)
        &&& in16(self.al1 as int)
        &&& -12288 <= self.al2 <= 12288
        &&& 0 <= self.nbl <= self.nbpl_cap
        &&& 0 <= self.detl <= 32064
    }

    /// The state after a reset: all memories zero, the logarithmic scale
    /// factor zero and the linear one at its minimum.
    pub open spec fn reset_spec(self) -> SubBandState {
        SubBandState {
            dlt: [0i32, 0, 0, 0, 0, 0, 0],
            plt: [0i32, 0, 0],
            rlt: [0i32, 0, 0],
            al1: 0,
            al2: 0,
            bl: [0i32, 0, 0, 0, 0, 0, 0],
            nbl: 0,
            detl: self.detl_reset,
            nbpl_cap: self.nbpl_cap,
            detl_reset: self.detl_reset,
        }
    }

    /// FILTEZ: the zero-section output accumulated over the first `n`
    /// taps.
    pub open spec fn zero_partial(self, n: int) -> int
        decreases n,
    {
        if n <= 0 {
            0
        } else {
            clamp16(
                self.zero_partial(n - 1) + q15(
                    self.bl[n] as int,
                    clamp16(2 * self.dlt[n] as int),
                ),
            )
        }
    }

    /// FILTEZ: the zero-section output `s_z`.
    pub open spec fn zero_output(self) -> int {
        self.zero_partial(6)
    }

    /// FILTEP: the pole-section output `s_p`.
    pub open spec fn pole_output(self) -> int {
        clamp16(
            q15(self.al1 as int, clamp16(2 * self.rlt[1] as int)) + q15(
                self.al2 as int,
                clamp16(2 * self.rlt[2] as int),
            ),
        )
    }

    /// PREDIC: the predicted signal `s = s_p + s_z`.
    pub open spec fn predicted(self) -> int {
        clamp16(self.pole_output() + self.zero_output())
    }

    /// LOGSCL / LOGSCH: the next logarithmic scale factor for the
    /// multiplier `w`, limited to `0 ..= nbpl_cap`.
    pub open spec fn log_scale_spec(self, w: int) -> int {
        let n = clamp16(q15(self.nbl as int, 32512) + w);
        let n1 = if n < 0 {
            0
        } else {
            n
        };
        if n1 > self.nbpl_cap {
            self.nbpl_cap as int
        } else {
            n1
        }
    }

    /// UPPOL1: the next pole coefficient `a1` (stability limit
    /// `|a1| <= 1 - 2^-4 - a2`).
    pub open spec fn pole1_spec(self) -> int {
        let wd1: int = if self.plt[0] as int / 32768 == self.plt[1] as int / 32768 {
            192
        } else {
            -192
        };
        let apl1 = clamp16(wd1 + q15(self.al1 as int, 32640));
        let wd3 = clamp16(15360 - self.al2 as int);
        let a = if apl1 > wd3 {
            wd3
        } else {
            apl1
        };
        if a < -wd3 {
            -wd3
        } else {
            a
        }
    }

    /// UPPOL2: the next pole coefficient `a2` (limited to `|a2| <= 0.75`).
    pub open spec fn pole2_spec(self) -> int {
        let sg0 = self.plt[0] as int / 32768;
        let sg1 = self.plt[1] as int / 32768;
        let sg2 = self.plt[2] as int / 32768;
        let wd1 = clamp16(2 * clamp16(2 * self.al1 as int));
        let wd2 = if sg0 == sg1 {
            clamp16(0 - wd1)
        } else {
            wd1
        };
        let wd3: int = if sg0 == sg2 {
            128
        } else {
            -128
        };
        let wd4 = clamp16(wd2 / 128 + wd3);
        let apl2 = clamp16(wd4 + q15(self.al2 as int, 32512));
        if apl2 < -12288 {
            -12288
        } else if apl2 > 12288 {
            12288
        } else {
            apl2
        }
    }

    /// UPZERO: the next zero coefficient `b_i` for the new difference
    /// signal `dlt`.
    pub open spec fn zero_coeff_spec(self, dlt: int, i: int) -> int {
        let wd1: int = if dlt == 0 {
            0
        } else {
            128
        };
        let wd2 = if dlt / 32768 == self.dlt[i] as int / 32768 {
            wd1
        } else {
            -wd1
        };
        clamp16(wd2 + q15(self.bl[i] as int, 32640))
    }

    /// The whole adaptation step (PARREC, UPPOL2, UPPOL1, UPZERO,
    /// LOGSCL, SCALEL and the delay lines) for the difference signal
    /// `dlt`, the zero-section output `szl` it was predicted with, the
    /// reconstructed signal `rlt` and the scale-factor multiplier `w`.
    pub open spec fn adapt_spec(self, dlt: i32, szl: i32, rlt: i32, w: i32) -> SubBandState {
        let p = clamp16(dlt + szl) as i32;
        let s1 = SubBandState { plt: [p, self.plt[0], self.plt[1]], ..self };
        let nbpl = self.log_scale_spec(w as int) as i32;
        SubBandState {
            dlt: [dlt, dlt, self.dlt[1], self.dlt[2], self.dlt[3], self.dlt[4], self.dlt[5]],
            plt: s1.plt,
            rlt: [rlt, self.rlt[0], self.rlt[1]],
            al1: s1.pole1_spec() as i32,
            al2: s1.pole2_spec() as i32,
            bl: [
                self.bl[0],
                self.zero_coeff_spec(dlt as int, 1) as i32,
                self.zero_coeff_spec(dlt as int, 2) as i32,
                self.zero_coeff_spec(dlt as int, 3) as i32,
                self.zero_coeff_spec(dlt as int, 4) as i32,
                self.zero_coeff_spec(dlt as int, 5) as i32,
                self.zero_coeff_spec(dlt as int, 6) as i32,
            ],
            nbl: nbpl,
            detl: linear_scale_spec(nbpl, self.base_shift()),
            nbpl_cap: self.nbpl_cap,
            detl_reset: self.detl_reset,
        }
    }
}

} // verus!

verus! {

/// A product of a 16-bit word and a value bounded by `k <= 32768`
/// stays within the 32-bit range and its `*` result within `-k ..= k`.
pub proof fn lemma_q15_range(a: int, b: int, k: int)
    requires
        -32768 <= a <= 32768,
        -k <= b <= k,
        0 <= k <= 32768,
    ensures
        -1073741824 <= a * b <= 1073741824,
        -k <= q15(a, b) <= k,
{
    lemma_mul_bound(a, b, 32768, k);
    assert(32768 * k <= 1073741824) by (nonlinear_arith)
        requires
            0 <= k <= 32768,
    ;
    assert(-k * 32768 <= a * b <= k * 32768) by (nonlinear_arith)
        requires
            -32768 <= a <= 32768,
            -k <= b <= k,
            0 <= k,
    ;
}

impl SubBandState {
    /// Lower sub-band state at the reset condition.
    pub fn new_lower() -> (r: Self)
        ensures
            r.wf(),
            r.is_lower(),
            r == r.reset_spec(),
    {
        SubBandState {
            dlt: [0, 0, 0, 0, 0, 0, 0],
            plt: [0, 0, 0],
            rlt: [0, 0, 0],
            al1: 0,
            al2: 0,
            bl: [0, 0, 0, 0, 0, 0, 0],
            nbl: 0,
            detl: 32,
            nbpl_cap: 18432,
            detl_reset: 32,
        }
    }

    /// Higher sub-band state at the reset condition.
    pub fn new_higher() -> (r: Self)
        ensures
            r.wf(),
            r.is_higher(),
            r == r.reset_spec(),
    {
        SubBandState {
            dlt: [0, 0, 0, 0, 0, 0, 0],
            plt: [0, 0, 0],
            rlt: [0, 0, 0],
            al1: 0,
            al2: 0,
            bl: [0, 0, 0, 0, 0, 0, 0],
            nbl: 0,
            detl: 8,
            nbpl_cap: 22528,
            detl_reset: 8,
        }
    }

    /// Reset every state variable to the post-reset condition (eqs 3-13
    /// / 3-14: zero memories, minimum linear scale factor).
    pub fn reset(&mut self)
        requires
            old(self).wf(),
        ensures
            *final(self) == old(self).reset_spec(),
            final(self).wf(),
    {
        self.dlt = [0, 0, 0, 0, 0, 0, 0];
        self.plt = [0, 0, 0];
        self.rlt = [0, 0, 0];
        self.al1 = 0;
        self.al2 = 0;
        self.bl = [0, 0, 0, 0, 0, 0, 0];
        self.nbl = 0;
        self.detl = self.detl_reset;
    }

    /// FILTEZ, FILTEP and PREDIC: the predicted signal `s` (eq 3-23) and
    /// the zero-section output `s_z` (eq 3-21).
    pub fn predict(&self) -> (r: (i32, i32))
        requires
            self.wf(),
        ensures
            r.0 == self.predicted(),
            r.1 == self.zero_output(),
            in16(r.0 as int),
            in16(r.1 as int),
    {
        let mut szl: i32 = 0;
        let mut i: usize = 1;
        while i < 7
            invariant
                self.wf(),
                1 <= i <= 7,
                szl == self.zero_partial(i - 1),
                in16(szl as int),
            decreases 7 - i,
        {
            let wd: i32 = add_sat(self.dlt[i], self.dlt[i]);
            proof {
                lemma_q15_range(self.bl[i as int] as int, wd as int, 32768);
            }
            szl = add_sat(szl, mul_q15(self.bl[i], wd));
            i = i + 1;
        }
        let wd1: i32 = add_sat(self.rlt[1], self.rlt[1]);
        proof {
            lemma_q15_range(self.al1 as int, wd1 as int, 32768);
        }
        let wd1: i32 = mul_q15(self.al1, wd1);
        let wd2: i32 = add_sat(self.rlt[2], self.rlt[2]);
        proof {
            lemma_q15_range(self.al2 as int, wd2 as int, 32768);
        }
        let wd2: i32 = mul_q15(self.al2, wd2);
        let spl: i32 = add_sat(wd1, wd2);
        let sl: i32 = add_sat(spl, szl);
        (sl, szl)
    }

    /// LOGSCL / LOGSCH (eqs 3-13 to 3-16).
    pub fn update_log_scale(&self, w: i32) -> (r: i32)
        requires
            self.wf(),
        ensures
            r == self.log_scale_spec(w as int),
            0 <= r <= self.nbpl_cap,
    {
        proof {
            lemma_q15_range(self.nbl as int, 32512, 32768);
        }
        let wd: i32 = mul_q15(self.nbl, 32512);
        let mut nbpl: i32 = add_sat(wd, w);
        if nbpl < 0 {
            nbpl = 0;
        }
        if nbpl > self.nbpl_cap {
            nbpl = self.nbpl_cap;
        }
        nbpl
    }

    /// UPPOL1 (eq 3-29 with the stability limit of eq 3-36).
    pub fn update_pole_coeff_1(&self) -> (r: i32)
        requires
            self.wf(),
        ensures
            r == self.pole1_spec(),
            -27648 <= r <= 27648,
    {
        let sg0: i32 = self.plt[0] >> 15;
        let sg1: i32 = self.plt[1] >> 15;
        proof {
            lemma_shr15(self.plt[0]);
            lemma_shr15(self.plt[1]);
            lemma_q15_range(self.al1 as int, 32640, 32768);
        }
        let wd1: i32 = if sg0 == sg1 {
            192
        } else {
            -192
        };
        let wd2: i32 = mul_q15(self.al1, 32640);
        let mut apl1: i32 = add_sat(wd1, wd2);
        let wd3: i32 = sub_sat(15360, self.al2);
        if apl1 > wd3 {
            apl1 = wd3;
        }
        if apl1 < -wd3 {
            apl1 = -wd3;
        }
        apl1
    }

    /// UPPOL2 (eq 3-30 with the stability limit of eq 3-35).
    pub fn update_pole_coeff_2(&self) -> (r: i32)
        requires
            self.wf(),
        ensures
            r == self.pole2_spec(),
            -12288 <= r <= 12288,
    {
        let sg0: i32 = self.plt[0] >> 15;
        let sg1: i32 = self.plt[1] >> 15;
        let sg2: i32 = self.plt[2] >> 15;
        proof {
            lemma_shr15(self.plt[0]);
            lemma_shr15(self.plt[1]);
            lemma_shr15(self.plt[2]);
            lemma_q15_range(self.al2 as int, 32512, 32768);
        }
        let mut wd1: i32 = add_sat(self.al1, self.al1);
        wd1 = add_sat(wd1, wd1);
        let wd2a: i32 = if sg0 == sg1 {
            sub_sat(0, wd1)
        } else {
            wd1
        };
        proof {
            assert((wd2a >> 7) as int == wd2a as int / 128) by (bit_vector);
        }
        let wd2: i32 = wd2a >> 7;
        let wd3: i32 = if sg0 == sg2 {
            128
        } else {
            -128
        };
        let wd4: i32 = add_sat(wd2, wd3);
        let wd5: i32 = mul_q15(self.al2, 32512);
        let apl2: i32 = add_sat(wd4, wd5);
        if apl2 < -12288 {
            -12288
        } else if apl2 > 12288 {
            12288
        } else {
            apl2
        }
    }
}

} // verus!

verus! {

impl SubBandState {
    /// UPZERO (eq 3-37): the next zero-section coefficients for the new
    /// difference signal `dlt`.
    pub fn update_zero_coeffs(&self, dlt: i32) -> (r: [i32; 7])
        requires
            self.wf(),
        ensures
            r[0] == self.bl[0],
            forall|i: int| 1 <= i < 7 ==> #[trigger] r[i] == self.zero_coeff_spec(dlt as int, i),
            forall|i: int| 0 <= i < 7 ==> in16(#[trigger] r[i] as int),
    {
        let wd1: i32 = if dlt == 0 {
            0
        } else {
            128
        };
        let sg0: i32 = dlt >> 15;
        proof {
            lemma_shr15(dlt);
        }
        let mut new_bl: [i32; 7] = self.bl;
        let mut i: usize = 1;
        while i < 7
            invariant
                self.wf(),
                1 <= i <= 7,
                sg0 as int == dlt as int / 32768,
                wd1 == (if dlt == 0 {
                    0i32
                } else {
                    128i32
                }),
                new_bl[0] == self.bl[0],
                forall|j: int| 1 <= j < i ==> #[trigger] new_bl[j] == self.zero_coeff_spec(dlt as int, j),
                forall|j: int| 0 <= j < 7 ==> in16(#[trigger] new_bl[j] as int),
            decreases 7 - i,
        {
            let sgi: i32 = self.dlt[i] >> 15;
            proof {
                lemma_shr15(self.dlt[i as int]);
                lemma_q15_range(self.bl[i as int] as int, 32640, 32768);
            }
            let wd2: i32 = if sg0 == sgi {
                wd1
            } else {
                -wd1
            };
            let wd3: i32 = mul_q15(self.bl[i], 32640);
            new_bl[i] = add_sat(wd2, wd3);
            i = i + 1;
        }
        new_bl
    }

    /// Block PARREC and its delay line: `p(n) = d(n) + s_z(n)`
    /// (saturated to 16 bits) enters the partially reconstructed signal,
    /// the older values shift down; nothing else changes.
    pub fn update_partial_reconstructed(&mut self, dlt: i32, szl: i32)
        ensures
            *final(self) == (SubBandState {
                plt: [clamp16(dlt + szl) as i32, old(self).plt[0], old(self).plt[1]],
                ..*old(self)
            }),
    {
        let plt0: i32 = add_sat(dlt, szl);
        self.plt = [plt0, self.plt[0], self.plt[1]];
    }

    /// The DELAYA line of the quantized difference signal: `d(n)` enters
    /// at the current position and at `d(n-1)`, the older values shift
    /// down one place; nothing else changes.
    pub fn shift_dlt(&mut self, dlt: i32)
        ensures
            *final(self) == (SubBandState {
                dlt: [
                    dlt,
                    dlt,
                    old(self).dlt[1],
                    old(self).dlt[2],
                    old(self).dlt[3],
                    old(self).dlt[4],
                    old(self).dlt[5],
                ],
                ..*old(self)
            }),
    {
        self.dlt = [dlt, dlt, self.dlt[1], self.dlt[2], self.dlt[3], self.dlt[4], self.dlt[5]];
    }

    /// The whole adaptation step after one sample (blocks PARREC,
    /// UPPOL2, UPPOL1, UPZERO, LOGSCL, SCALEL and the DELAYA delay
    /// lines): `dlt` is the quantized difference signal, `szl` the
    /// zero-section output it was predicted with, `rlt` the
    /// reconstructed signal and `w` the scale-factor multiplier.
    pub fn adapt(&mut self, dlt: i32, szl: i32, rlt: i32, w: i32)
        requires
            old(self).wf(),
            in16(dlt as int),
            in16(szl as int),
            in16(rlt as int),
            -214 <= w <= 3042,
        ensures
            *final(self) == old(self).adapt_spec(dlt, szl, rlt, w),
            final(self).wf(),
    {
        let ghost s0 = *self;
        self.update_partial_reconstructed(dlt, szl);
        let new_apl2: i32 = self.update_pole_coeff_2();
        let new_apl1: i32 = self.update_pole_coeff_1();
        let new_bl: [i32; 7] = self.update_zero_coeffs(dlt);
        let nbpl: i32 = self.update_log_scale(w);
        let base: i32 = if self.nbpl_cap == 18432 {
            8
        } else {
            10
        };
        let depl: i32 = linear_scale_method2(nbpl, base);
        self.shift_dlt(dlt);
        self.rlt = [rlt, self.rlt[0], self.rlt[1]];
        self.al2 = new_apl2;
        self.al1 = new_apl1;
        self.bl = new_bl;
        self.nbl = nbpl;
        self.detl = depl;
        proof {
            let t = s0.adapt_spec(dlt, szl, rlt, w);
            assert(self.bl =~= t.bl);
            assert(self.dlt =~= t.dlt);
            assert(self.rlt =~= t.rlt);
            assert(self.plt =~= t.plt);
        }
    }
}

} // verus!

verus! {

/// An inverse-quantizer output level `±(QQ << 3)` for the magnitude
/// `mag` and the sign word `sign` (0 positive, -1 negative).
pub open spec fn signed_level(mag: int, sign: int) -> int {
    if sign == 0 {
        mag * 8
    } else {
        -(mag * 8)
    }
}

/// INVQAL / 4-bit INVQBL: the quantized difference for the 4-bit
/// code-word `code4` and the scale factor `det` (Table 17).
pub open spec fn invq4_spec(code4: int, det: int) -> int {
    q15(det, signed_level(QQ4[IL4_FROM_IL4[code4] as int] as int, SIL_FROM_IL4[code4] as int))
}

/// INVQAH: the quantized difference for the 2-bit higher sub-band
/// code-word `ih` and the scale factor `det` (Table 21).
pub open spec fn invq2_spec(ih: int, det: int) -> int {
    q15(det, signed_level(QQ2[IH2_FROM_IH[ih] as int] as int, SIH_FROM_IH[ih] as int))
}

/// A scale factor within `0 ..= 32064` times an output level within
/// `±24808` gives a quantized difference within the 16-bit range.
pub proof fn lemma_invq_range(det: int, level: int)
    requires
        0 <= det <= 32064,
        -24808 <= level <= 24808,
    ensures
        i32::MIN <= det * level <= i32::MAX,
        -24808 <= q15(det, level) <= 24808,
{
    lemma_mul_bound(det, level, 32064, 24808);
    assert(-(24808 * 32768) <= det * level <= 24808 * 32768) by (nonlinear_arith)
        requires
            0 <= det <= 32064,
            -24808 <= level <= 24808,
    ;
}

/// 4-bit inverse quantizer (INVQAL, and INVQBL in Mode 3).
pub fn invq4(code4: usize, det: i32) -> (r: i32)
    requires
        code4 < 16,
        0 <= det <= 32064,
    ensures
        r == invq4_spec(code4 as int, det as int),
        -24808 <= r <= 24808,
{
    proof {
        lemma_table_ranges();
    }
    let il4: usize = IL4_FROM_IL4[code4] as usize;
    let sil: i32 = SIL_FROM_IL4[code4];
    let wd1: i32 = QQ4[il4] * 8;
    let wd2: i32 = if sil == 0 {
        wd1
    } else {
        -wd1
    };
    proof {
        lemma_invq_range(det as int, wd2 as int);
    }
    mul_q15(det, wd2)
}

/// INVQAH: 2-bit higher sub-band inverse quantizer.
pub fn invq2(ih: usize, det: i32) -> (r: i32)
    requires
        ih < 4,
        0 <= det <= 32064,
    ensures
        r == invq2_spec(ih as int, det as int),
        -24808 <= r <= 24808,
{
    proof {
        lemma_table_ranges();
    }
    let ih2: usize = IH2_FROM_IH[ih] as usize;
    let sih: i32 = SIH_FROM_IH[ih];
    let wd1: i32 = QQ2[ih2] * 8;
    let wd2: i32 = if sih == 0 {
        wd1
    } else {
        -wd1
    };
    proof {
        lemma_invq_range(det as int, wd2 as int);
    }
    mul_q15(det, wd2)
}

/// The lower sub-band adaptation after the 4-bit truncated code-word
/// `code4` (eq 3-11 and clauses 3.5 / 3.6). It depends on the code-word
/// only through its four MSBs, so the transmit-side local decoder and
/// the receive-side decoder run it identically in every mode.
pub open spec fn lower_adapt_spec(s: SubBandState, code4: int) -> SubBandState {
    let dlt = invq4_spec(code4, s.detl as int);
    s.adapt_spec(
        dlt as i32,
        s.zero_output() as i32,
        clamp16(s.predicted() + dlt) as i32,
        WL[IL4_FROM_IL4[code4] as int],
    )
}

/// The higher sub-band adaptation after the 2-bit code-word `ih`
/// (eq 3-12 and clauses 3.5 / 3.6).
pub open spec fn higher_adapt_spec(s: SubBandState, ih: int) -> SubBandState {
    let dh = invq2_spec(ih, s.detl as int);
    s.adapt_spec(
        dh as i32,
        s.zero_output() as i32,
        clamp16(s.predicted() + dh) as i32,
        WH[IH2_FROM_IH[ih] as int],
    )
}

/// The lower sub-band adaptation after the 4-bit code-word `code4`
/// with the prediction `(sl, szl)` supplied from outside (a concealment
/// hand-over) in place of the state's own.
pub open spec fn lower_adapt_pred_spec(s: SubBandState, code4: int, sl: int, szl: int) -> SubBandState {
    let dlt = invq4_spec(code4, s.detl as int);
    s.adapt_spec(dlt as i32, szl as i32, clamp16(sl + dlt) as i32, WL[IL4_FROM_IL4[code4] as int])
}

impl SubBandState {
    /// Lower sub-band adaptation for the 4-bit truncated code-word
    /// `code4` with a prediction `(sl, szl)` supplied by the caller.
    pub fn lower_update_pred(&mut self, sl: i32, szl: i32, code4: usize)
        requires
            old(self).wf(),
            old(self).is_lower(),
            in16(sl as int),
            in16(szl as int),
            code4 < 16,
        ensures
            *final(self) == lower_adapt_pred_spec(*old(self), code4 as int, sl as int, szl as int),
            final(self).wf(),
            final(self).is_lower(),
    {
        proof {
            lemma_table_ranges();
        }
        let dlt: i32 = invq4(code4, self.detl);
        let rlt: i32 = add_sat(sl, dlt);
        let w: i32 = WL[IL4_FROM_IL4[code4] as usize];
        self.adapt(dlt, szl, rlt, w);
    }

    /// Lower sub-band adaptation for the 4-bit truncated code-word
    /// `code4`, given the prediction `(sl, szl)` made from the current
    /// state.
    pub fn lower_update(&mut self, sl: i32, szl: i32, code4: usize)
        requires
            old(self).wf(),
            old(self).is_lower(),
            sl == old(self).predicted(),
            szl == old(self).zero_output(),
            code4 < 16,
        ensures
            *final(self) == lower_adapt_spec(*old(self), code4 as int),
            final(self).wf(),
            final(self).is_lower(),
    {
        proof {
            lemma_table_ranges();
        }
        let dlt: i32 = invq4(code4, self.detl);
        let rlt: i32 = add_sat(sl, dlt);
        let w: i32 = WL[IL4_FROM_IL4[code4] as usize];
        self.adapt(dlt, szl, rlt, w);
    }

    /// Higher sub-band adaptation for the 2-bit code-word `ih`, given
    /// the prediction `(sh, szh)` made from the current state.
    pub fn higher_update(&mut self, sh: i32, szh: i32, ih: usize)
        requires
            old(self).wf(),
            old(self).is_higher(),
            sh == old(self).predicted(),
            szh == old(self).zero_output(),
            ih < 4,
        ensures
            *final(self) == higher_adapt_spec(*old(self), ih as int),
            final(self).wf(),
            final(self).is_higher(),
    {
        proof {
            lemma_table_ranges();
        }
        let dh: i32 = invq2(ih, self.detl);
        let rh: i32 = add_sat(sh, dh);
        let w: i32 = WH[IH2_FROM_IH[ih] as usize];
        self.adapt(dh, szh, rh, w);
    }
}

} // verus!

verus! {

/// The zero-section partial sums are 16-bit words.
pub proof fn lemma_zero_partial_in16(s: SubBandState, n: int)
    ensures
        in16(s.zero_partial(n)),
    decreases n,
{
    if n > 0 {
        lemma_zero_partial_in16(s, n - 1);
    }
}

/// One adaptation step keeps a well-formed state well formed.
pub proof fn lemma_adapt_spec_wf(s: SubBandState, dlt: i32, szl: i32, rlt: i32, w: i32)
    requires
        s.wf(),
        in16(dlt as int),
        in16(szl as int),
        in16(rlt as int),
        -214 <= w <= 3042,
    ensures
        s.adapt_spec(dlt, szl, rlt, w).wf(),
        s.adapt_spec(dlt, szl, rlt, w).nbpl_cap == s.nbpl_cap,
        s.adapt_spec(dlt, szl, rlt, w).detl_reset == s.detl_reset,
{
    let t = s.adapt_spec(dlt, szl, rlt, w);
    let nbpl = s.log_scale_spec(w as int) as i32;
    lemma_linear_scale_range(nbpl, s.base_shift());
    assert forall|i: int| 0 <= i < 7 implies in16(#[trigger] t.dlt[i] as int) by {}
    assert forall|i: int| 0 <= i < 7 implies in16(#[trigger] t.bl[i] as int) by {}
    assert forall|i: int| 0 <= i < 3 implies in16(#[trigger] t.plt[i] as int) by {}
    assert forall|i: int| 0 <= i < 3 implies in16(#[trigger] t.rlt[i] as int) by {}
}

/// The difference and prediction values of one step are 16-bit words.
pub proof fn lemma_step_values_in16(s: SubBandState)
    requires
        s.wf(),
    ensures
        in16(s.zero_output()),
        in16(s.predicted()),
        forall|c: int| 0 <= c < 16 ==> -24808 <= #[trigger] invq4_spec(c, s.detl as int) <= 24808,
        forall|c: int| 0 <= c < 4 ==> -24808 <= #[trigger] invq2_spec(c, s.detl as int) <= 24808,
{
    lemma_zero_partial_in16(s, 6);
    lemma_table_ranges();
    assert forall|c: int| 0 <= c < 16 implies -24808 <= #[trigger] invq4_spec(c, s.detl as int) <= 24808 by {
        lemma_invq_range(s.detl as int, signed_level(QQ4[IL4_FROM_IL4[c] as int] as int, SIL_FROM_IL4[c] as int));
    }
    assert forall|c: int| 0 <= c < 4 implies -24808 <= #[trigger] invq2_spec(c, s.detl as int) <= 24808 by {
        lemma_invq_range(s.detl as int, signed_level(QQ2[IH2_FROM_IH[c] as int] as int, SIH_FROM_IH[c] as int));
    }
}

/// The lower sub-band adaptation keeps a lower state well formed.
pub proof fn lemma_lower_adapt_wf(s: SubBandState, code4: int)
    requires
        s.wf(),
        s.is_lower(),
        0 <= code4 < 16,
    ensures
        lower_adapt_spec(s, code4).wf(),
        lower_adapt_spec(s, code4).is_lower(),
{
    lemma_step_values_in16(s);
    lemma_table_ranges();
    let dlt = invq4_spec(code4, s.detl as int);
    lemma_adapt_spec_wf(
        s,
        dlt as i32,
        s.zero_output() as i32,
        clamp16(s.predicted() + dlt) as i32,
        WL[IL4_FROM_IL4[code4] as int],
    );
}

/// The higher sub-band adaptation keeps a higher state well formed.
pub proof fn lemma_higher_adapt_wf(s: SubBandState, ih: int)
    requires
        s.wf(),
        s.is_higher(),
        0 <= ih < 4,
    ensures
        higher_adapt_spec(s, ih).wf(),
        higher_adapt_spec(s, ih).is_higher(),
{
    lemma_step_values_in16(s);
    lemma_table_ranges();
    let dh = invq2_spec(ih, s.detl as int);
    lemma_adapt_spec_wf(
        s,
        dh as i32,
        s.zero_output() as i32,
        clamp16(s.predicted() + dh) as i32,
        WH[IH2_FROM_IH[ih] as int],
    );
}

} // verus!
