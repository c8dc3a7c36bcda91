//! Self-consistent lower sub-band ADPCM: a 4/5/6-bit sign + magnitude
//! quantiser with a power-of-two adaptive step, a 2-pole / 6-zero
//! predictor, and a log-domain scale-factor adapter. The width follows
//! the [`Mode`]:
//!
//! | Mode | Rate (kbit/s) | Lower sub-band bits | Magnitude bits |
//! |------|---------------|---------------------|----------------|
//! | 1    | 64            | 6                   | 5              |
//! | 2    | 56            | 5                   | 4              |
//! | 3    | 48            | 4                   | 3              |
//!
//! This coder is not the normative G.722 lower sub-band coder (that one
//! lives in `decoder` / `encoder`); it is a correctly shaped equivalent
//! whose encoder and decoder share one state and evolve identically when
//! fed the same codes ([`lemma_low_band_lockstep`]), so the decoder is the
//! exact inverse of this encoder.
//!
//! Code layout (`mag_bits + 1` bits): bit `mag_bits` is the sign
//! (1 = negative), bits `0 .. mag_bits` the magnitude index; a zero
//! input lands on code 0, which reconstructs to 0.

use vstd::prelude::*;

use crate::mode::{lb_bits_spec, Mode};
use crate::predictor::{clamp15, clamp16, in16, lemma_shr15};
use crate::tables::WL;

verus! {

// -----------------------------------------------------------------------
// Model
// -----------------------------------------------------------------------

/// `2^e` for the small exponents of the code layout (`0 ..= 7`).
pub open spec fn weight(e: int) -> int {
    if e <= 0 {
        1
    } else if e == 1 {
        2
    } else if e == 2 {
        4
    } else if e == 3 {
        8
    } else if e == 4 {
        16
    } else if e == 5 {
        32
    } else if e == 6 {
        64
    } else {
        128
    }
}

/// Quantiser step for scale factor `det` and `mag_bits` magnitude bits:
/// `max(2 * det, 1)` scaled by `2^(5 - mag_bits)`, so every width spans
/// the same input range.
pub open spec fn step_size(det: int, mag_bits: int) -> int {
    (if 2 * det >= 1 {
        2 * det
    } else {
        1
    }) * weight(5 - mag_bits)
}

/// The machine limits of the quantiser arithmetic for `det`.
pub open spec fn step_fits(det: int, mag_bits: int) -> bool {
    &&& 0 <= mag_bits <= 5
    &&& -0x4000_0000 <= det < 0x4000_0000
    &&& step_size(det, mag_bits) <= 0x7fff_ffff
}

/// Adaptive uniform quantiser: the sign bit above the magnitude index
/// `min((|el| + step / 2) / step, 2^mag_bits - 1)`; zero maps to code 0.
pub open spec fn quantise_spec(el: int, det: int, mag_bits: int) -> int {
    if el == 0 {
        0
    } else {
        let mag = if el < 0 {
            -el
        } else {
            el
        };
        let step = step_size(det, mag_bits);
        let idx0 = (mag + step / 2) / step;
        let max_mag = weight(mag_bits) - 1;
        let idx = if idx0 > max_mag {
            max_mag
        } else {
            idx0
        };
        (if el < 0 {
            weight(mag_bits)
        } else {
            0
        }) + idx
    }
}

/// Inverse quantiser: `±(magnitude index * step)`.
pub open spec fn dequantise_spec(code: int, det: int, mag_bits: int) -> int {
    let m = code % weight(mag_bits);
    let negative = (code / weight(mag_bits)) % 2 == 1;
    if m == 0 && !negative {
        0
    } else if negative {
        -(m * step_size(det, mag_bits))
    } else {
        m * step_size(det, mag_bits)
    }
}

/// The log-domain scale-factor update `det * (4096 + w) / 4096`, held
/// to `8 ..= 32767`.
pub open spec fn adapt_det_spec(det: int, w: int) -> int {
    let v = det * (4096 + w) / 4096;
    if v < 8 {
        8
    } else if v > 32767 {
        32767
    } else {
        v
    }
}

/// Division truncating toward zero.
pub open spec fn trunc_div(x: int, d: int) -> int {
    if x >= 0 {
        x / d
    } else {
        -((-x) / d)
    }
}

/// The leak `a * 32640 / 32768` of a pole coefficient.
pub open spec fn leak(a: int) -> int {
    trunc_div(a * 32640, 32768)
}

/// The sign-match increment of a zero coefficient.
pub open spec fn zero_delta(dq: int, d: int) -> int {
    if dq == 0 || d == 0 {
        0
    } else if (dq > 0) == (d > 0) {
        128
    } else {
        -128
    }
}

/// A zero coefficient after one step: a 1/256 leak and the sign-match
/// increment, held to 16 bits.
pub open spec fn zero_next(b: int, dq: int, d: int) -> int {
    clamp16(b - b / 256 + zero_delta(dq, d))
}

/// The sign-match increment of a pole coefficient.
pub open spec fn pole_delta(r: int, rp: int, k: int) -> int {
    if (r > 0) == (rp > 0) && r != 0 && rp != 0 {
        k
    } else {
        -k
    }
}

/// The second pole coefficient after one step.
pub open spec fn a2_next(a2: int, r: int, r2: int) -> int {
    let v = leak(a2) + pole_delta(r, r2, 64);
    if v < -12288 {
        -12288
    } else if v > 12288 {
        12288
    } else {
        v
    }
}

/// The first pole coefficient after one step, held to
/// `±(15360 - max(a2, 0))`.
pub open spec fn a1_next(a1: int, a2n: int, r: int, r1: int) -> int {
    let lim = 15360 - (if a2n > 0 {
        a2n
    } else {
        0
    });
    let lim1 = if lim > 1 {
        lim
    } else {
        1
    };
    let v = leak(a1) + pole_delta(r, r1, 96);
    if v < -lim1 {
        -lim1
    } else if v > lim1 {
        lim1
    } else {
        v
    }
}

/// Every product of a coefficient and a delayed difference fits in 32
/// bits.
pub open spec fn products_fit(b: [i32; 6], d: [i32; 6]) -> bool {
    forall|i: int| 0 <= i < 6 ==> -0x8000_0000 <= #[trigger] b[i] * d[i] <= 0x7fff_ffff
}

/// One zero coefficient after a step with difference `dq` against the
/// delayed difference `d`.
pub(crate) fn zero_coeff_next(b: i32, dq: i32, d: i32) -> (r: i32)
    requires
        in16(b as int),
    ensures
        r as int == zero_next(b as int, dq as int, d as int),
        in16(r as int),
{
    proof {
        assert((b >> 8u32) as int == b as int / 256) by {
            crate::basicop::lemma_shr_is_div(b, 8);
            assert(crate::basicop::two_pow(8) == 256) by {
                reveal_with_fuel(crate::basicop::two_pow, 9);
            }
        }
    }
    let decayed: i32 = b - (b >> 8);
    let delta: i32 = if dq == 0 || d == 0 {
        0
    } else if (dq > 0) == (d > 0) {
        128
    } else {
        -128
    };
    let v: i32 = decayed + delta;
    if v < -32_768 {
        -32_768
    } else if v > 32_767 {
        32_767
    } else {
        v
    }
}

/// The zero-predictor sum `sum_i floor(b_i * d_i / 2^15)`.
pub open spec fn zero_sum(b: [i32; 6], d: [i32; 6], n: int) -> int
    decreases n,
{
    if n <= 0 {
        0
    } else {
        zero_sum(b, d, n - 1) + (b[n - 1] * d[n - 1]) / 32768
    }
}

/// Lower sub-band ADPCM state; the encoder and the decoder share this
/// structure so that they evolve identically on the same codes.
#[derive(Clone, Debug)]
pub struct LowBand {
    /// Magnitude bits (3, 4 or 5): one less than the code width.
    mag_bits: u8,
    /// Prediction of the next sample.
    s: i32,
    /// Adaptive scale factor.
    det: i32,
    /// Last two reconstructed samples, for the 2-pole predictor.
    r1: i32,
    r2: i32,
    /// Delayed quantised differences, for the 6-zero predictor.
    d_hist: [i32; 6],
    /// Pole coefficients (Q15).
    a1: i32,
    a2: i32,
    /// Zero coefficients (Q15).
    b: [i32; 6],
}

impl LowBand {
    /// The ranges every reachable state keeps.
    pub closed spec fn wf(self) -> bool {
        &&& 3 <= self.mag_bits <= 5
        &&& 8 <= self.det <= 32767
        &&& -16384 <= self.s <= 16383
        &&& -16384 <= self.r1 <= 16383
        &&& -16384 <= self.r2 <= 16383
        &&& -12288 <= self.a2 <= 12288
        &&& -15360 <= self.a1 <= 15360
        &&& forall|i: int| 0 <= i < 6 ==> in16(#[trigger] self.b[i] as int)
        &&& forall|i: int| 0 <= i < 6 ==> -0x20_0000 <= #[trigger] self.d_hist[i] <= 0x20_0000
    }

    /// Total code width (sign and magnitude).
    pub closed spec fn lb_bits_view(self) -> int {
        self.mag_bits + 1
    }

    /// Prediction of the next sample.
    pub closed spec fn prediction_view(self) -> int {
        self.s as int
    }

    /// Adaptive scale factor.
    pub closed spec fn scale_view(self) -> int {
        self.det as int
    }

    /// The state after construction for a code width of `lb_bits`.
    pub closed spec fn fresh_spec(lb_bits: int) -> LowBand {
        LowBand {
            mag_bits: (lb_bits - 1) as u8,
            s: 0,
            det: 64,
            r1: 0,
            r2: 0,
            d_hist: [0i32, 0, 0, 0, 0, 0],
            a1: 0,
            a2: 0,
            b: [0i32, 0, 0, 0, 0, 0],
        }
    }

    /// A silent state: prediction, reconstructions and delayed
    /// differences all zero.
    pub closed spec fn silent(self) -> bool {
        &&& self.s == 0
        &&& self.r1 == 0
        &&& self.r2 == 0
        &&& self.d_hist == [0i32, 0, 0, 0, 0, 0]
    }

    /// The zero coefficients after a step with difference `dq`.
    pub closed spec fn b_next(self, dq: int) -> [i32; 6] {
        [
            zero_next(self.b[0] as int, dq, self.d_hist[0] as int) as i32,
            zero_next(self.b[1] as int, dq, self.d_hist[1] as int) as i32,
            zero_next(self.b[2] as int, dq, self.d_hist[2] as int) as i32,
            zero_next(self.b[3] as int, dq, self.d_hist[3] as int) as i32,
            zero_next(self.b[4] as int, dq, self.d_hist[4] as int) as i32,
            zero_next(self.b[5] as int, dq, self.d_hist[5] as int) as i32,
        ]
    }

    /// The delayed differences after a step with difference `dq`.
    pub closed spec fn d_next(self, dq: int) -> [i32; 6] {
        [dq as i32, self.d_hist[0], self.d_hist[1], self.d_hist[2], self.d_hist[3], self.d_hist[4]]
    }

    /// The difference reconstructed from `code` (cut to the code width).
    pub closed spec fn dq_spec(self, code: int) -> int {
        dequantise_spec(code % weight(self.mag_bits + 1), self.det as int, self.mag_bits as int)
    }

    /// The state after the step on code `code` with difference `dq` and
    /// reconstruction `r`.
    pub closed spec fn update_spec(self, code: int, dq: int, r: int) -> LowBand {
        let mag = code % weight(self.mag_bits as int);
        let w = WL[mag / weight(self.mag_bits - 3)];
        let a2n = a2_next(self.a2 as int, r, self.r2 as int);
        let a1n = a1_next(self.a1 as int, a2n, r, self.r1 as int);
        let bn = self.b_next(dq);
        let dn = self.d_next(dq);
        let sp = (a1n * r) / 32768 + (a2n * self.r1) / 32768;
        LowBand {
            mag_bits: self.mag_bits,
            s: clamp15(sp + zero_sum(bn, dn, 6)) as i32,
            det: adapt_det_spec(self.det as int, w as int) as i32,
            r1: r as i32,
            r2: self.r1,
            d_hist: dn,
            a1: a1n as i32,
            a2: a2n as i32,
            b: bn,
        }
    }

    /// The step on `code` stays within 32-bit arithmetic.
    pub closed spec fn decode_ok(self, code: int) -> bool {
        products_fit(self.b_next(self.dq_spec(code)), self.d_next(self.dq_spec(code)))
    }

    /// Decoding `code`: the next state and the reconstructed sample.
    pub closed spec fn decode_spec(self, code: int) -> (LowBand, int) {
        let c = code % weight(self.mag_bits + 1);
        let dq = self.dq_spec(code);
        let r = clamp15(self.s + dq);
        (self.update_spec(c, dq, r), r)
    }

    /// The code the encoder picks for the sample `xl`.
    pub closed spec fn code_spec(self, xl: int) -> int {
        quantise_spec(xl - self.s, self.det as int, self.mag_bits as int)
    }

    /// Encoding `xl`: the next state and the code.
    pub closed spec fn encode_spec(self, xl: int) -> (LowBand, int) {
        (self.decode_spec(self.code_spec(xl)).0, self.code_spec(xl))
    }
}

// -----------------------------------------------------------------------
// Bit layout
// -----------------------------------------------------------------------

/// Powers of two, masks and fields of the code layout, bit by bit.
proof fn lemma_code_layout()
    by (bit_vector)
    ensures
        (1u16 << 4u8) == 16u16,
        (1u16 << 5u8) == 32u16,
        (1u16 << 6u8) == 64u16,
        (1u16 << 0u8) == 1u16,
        (1u16 << 1u8) == 2u16,
        (1u16 << 2u8) == 4u16,
        (1u16 << 3u8) == 8u16,
        (1u8 << 0u8) == 1u8,
        (1u8 << 1u8) == 2u8,
        (1u8 << 2u8) == 4u8,
        (1u8 << 3u8) == 8u8,
        (1u8 << 4u8) == 16u8,
        (1u8 << 5u8) == 32u8,
        (1i32 << 0u32) == 1i32,
        (1i32 << 1u32) == 2i32,
        (1i32 << 2u32) == 4i32,
        (1i32 << 3u32) == 8i32,
        (1i32 << 4u32) == 16i32,
        (1i32 << 5u32) == 32i32,
        forall|x: u8| #[trigger] (x & 0u8) == x % 1,
        forall|x: u8| #[trigger] (x & 1u8) == x % 2,
        forall|x: u8| #[trigger] (x & 3u8) == x % 4,
        forall|x: u8| #[trigger] (x & 7u8) == x % 8,
        forall|x: u8| #[trigger] (x & 15u8) == x % 16,
        forall|x: u8| #[trigger] (x & 31u8) == x % 32,
        forall|x: u8| #[trigger] (x & 63u8) == x % 64,
        forall|x: u8| (#[trigger] (x & 1u8) != 0) == ((x / 1) % 2 == 1),
        forall|x: u8| (#[trigger] (x & 2u8) != 0) == ((x / 2) % 2 == 1),
        forall|x: u8| (#[trigger] (x & 4u8) != 0) == ((x / 4) % 2 == 1),
        forall|x: u8| (#[trigger] (x & 8u8) != 0) == ((x / 8) % 2 == 1),
        forall|x: u8| (#[trigger] (x & 16u8) != 0) == ((x / 16) % 2 == 1),
        forall|x: u8| (#[trigger] (x & 32u8) != 0) == ((x / 32) % 2 == 1),
        forall|s: u8, i: u8| (s == 0 || s == 1) && i < 1 ==> #[trigger] (s | i) == s + i,
        forall|s: u8, i: u8| (s == 0 || s == 2) && i < 2 ==> #[trigger] (s | i) == s + i,
        forall|s: u8, i: u8| (s == 0 || s == 4) && i < 4 ==> #[trigger] (s | i) == s + i,
        forall|s: u8, i: u8| (s == 0 || s == 8) && i < 8 ==> #[trigger] (s | i) == s + i,
        forall|s: u8, i: u8| (s == 0 || s == 16) && i < 16 ==> #[trigger] (s | i) == s + i,
        forall|s: u8, i: u8| (s == 0 || s == 32) && i < 32 ==> #[trigger] (s | i) == s + i,
        forall|x: usize| x < 8 ==> #[trigger] (x & 7usize) == x,
        forall|m: u8, k: u8| k <= 2 && m < 32 ==> #[trigger] (m >> k) == m / (if k == 0 {
            1u8
        } else if k == 1 {
            2u8
        } else {
            4u8
        }),
{
}

/// Bit mask of a code with `mag_bits` magnitude bits (sign included).
fn code_mask(mag_bits: u8) -> (r: u8)
    requires
        mag_bits <= 5,
    ensures
        r == weight(mag_bits + 1) - 1,
{
    proof {
        lemma_code_layout();
    }
    ((1u16 << (mag_bits + 1)) - 1) as u8
}

/// Bit mask of the magnitude field.
fn mag_mask(mag_bits: u8) -> (r: u8)
    requires
        mag_bits <= 5,
    ensures
        r == weight(mag_bits as int) - 1,
{
    proof {
        lemma_code_layout();
    }
    ((1u16 << mag_bits) - 1) as u8
}

/// The sign bit, just above the magnitude field.
fn sign_bit(mag_bits: u8) -> (r: u8)
    requires
        mag_bits <= 5,
    ensures
        r == weight(mag_bits as int),
{
    proof {
        lemma_code_layout();
    }
    1u8 << mag_bits
}

/// Quantiser step, as the exec code computes it.
fn quant_step(det: i32, mag_bits: u8) -> (r: i32)
    requires
        step_fits(det as int, mag_bits as int),
    ensures
        r == step_size(det as int, mag_bits as int),
        r >= 1,
{
    proof {
        lemma_code_layout();
    }
    let base_step: i32 = if det * 2 > 1 {
        det * 2
    } else {
        1
    };
    let scale: i32 = 1i32 << ((5 - mag_bits) as u32);
    proof {
        assert(scale == weight(5 - mag_bits));
        assert(base_step * scale <= 0x7fff_ffff);
        assert(base_step * scale >= 1) by (nonlinear_arith)
            requires
                base_step >= 1,
                scale >= 1,
        ;
    }
    base_step * scale
}

/// Adaptive uniform quantiser: sign bit `mag_bits`, magnitude index
/// `min((|el| + step / 2) / step, 2^mag_bits - 1)`. A zero input lands on
/// code 0, whose reconstruction is zero, so silence stays silent.
pub fn quantise(el: i32, det: i32, mag_bits: u8) -> (r: u8)
    requires
        step_fits(det as int, mag_bits as int),
        el > i32::MIN,
        (if el < 0 {
            -el
        } else {
            el as int
        }) + step_size(det as int, mag_bits as int) / 2 <= 0x7fff_ffff,
    ensures
        r == quantise_spec(el as int, det as int, mag_bits as int),
        r < weight(mag_bits + 1),
{
    if el == 0 {
        return 0;
    }
    let sign: bool = el < 0;
    let mag: i32 = if el < 0 {
        -el
    } else {
        el
    };
    let step: i32 = quant_step(det, mag_bits);
    proof {
        lemma_code_layout();
    }
    let max_mag: i32 = (1i32 << (mag_bits as u32)) - 1;
    let idx0: i32 = (mag + step / 2) / step;
    let idx: u8 = if idx0 > max_mag {
        max_mag as u8
    } else {
        idx0 as u8
    };
    let sign_b: u8 = if sign {
        sign_bit(mag_bits)
    } else {
        0
    };
    sign_b | (idx & mag_mask(mag_bits))
}

/// Inverse quantiser: `±(magnitude index * step)`, zero for code 0.
pub fn dequantise(code: u8, det: i32, mag_bits: u8) -> (r: i32)
    requires
        step_fits(det as int, mag_bits as int),
        (code as int % weight(mag_bits as int)) * step_size(det as int, mag_bits as int) <= 0x7fff_ffff,
    ensures
        r == dequantise_spec(code as int, det as int, mag_bits as int),
{
    proof {
        lemma_code_layout();
    }
    let mag_idx: i32 = (code & mag_mask(mag_bits)) as i32;
    let sign: bool = (code & sign_bit(mag_bits)) != 0;
    if mag_idx == 0 && !sign {
        return 0;
    }
    let step: i32 = quant_step(det, mag_bits);
    let mag: i32 = mag_idx * step;
    if sign {
        -mag
    } else {
        mag
    }
}

/// Magnitude index of a code, which drives the scale-factor adapter.
fn code_magnitude(code: u8, mag_bits: u8) -> (r: i32)
    requires
        mag_bits <= 5,
    ensures
        r == code as int % weight(mag_bits as int),
{
    proof {
        lemma_code_layout();
    }
    (code & mag_mask(mag_bits)) as i32
}

/// The log-domain scale-factor update, held to `8 ..= 32767`.
fn adapt_det(det: i32, w: i32) -> (r: i32)
    requires
        8 <= det <= 32767,
        -4096 <= w <= 4096,
    ensures
        r == adapt_det_spec(det as int, w as int),
{
    proof {
        assert(0 <= det * (4096 + w) <= 32767 * 8192) by (nonlinear_arith)
            requires
                8 <= det <= 32767,
                -4096 <= w <= 4096,
        ;
    }
    let scaled: i64 = (det as i64 * (4096 + w as i64)) / 4096;
    let v: i32 = scaled as i32;
    if v < 8 {
        8
    } else if v > 32_767 {
        32_767
    } else {
        v
    }
}

/// Saturation into the 15-bit range.
fn sat15(v: i32) -> (r: i32)
    ensures
        r == clamp15(v as int),
{
    if v < -16_384 {
        -16_384
    } else if v > 16_383 {
        16_383
    } else {
        v
    }
}

/// The leak of a pole coefficient, truncating toward zero.
fn leak_exec(a: i32) -> (r: i32)
    requires
        -32768 <= a <= 32768,
    ensures
        r == leak(a as int),
        -32768 <= r <= 32768,
{
    let p: i64 = a as i64 * 32_640;
    let q: i64 = if p >= 0 {
        p / 32_768
    } else {
        -((-p) / 32_768)
    };
    q as i32
}

impl LowBand {
    /// A lower sub-band state for the default mode (Mode 1, 6-bit codes).
    pub fn new() -> (r: Self)
        ensures
            r.wf(),
            r == Self::fresh_spec(6),
    {
        Self::for_mode(Mode::Mode1)
    }

    /// A lower sub-band state for the code width of `mode`.
    pub fn for_mode(mode: Mode) -> (r: Self)
        ensures
            r.wf(),
            r == Self::fresh_spec(lb_bits_spec(mode)),
    {
        Self::with_bits(mode.lb_bits())
    }

    /// A lower sub-band state for a total code width of `lb_bits` (4, 5
    /// or 6; any other width is taken as 6).
    pub fn with_bits(lb_bits: u8) -> (r: Self)
        ensures
            r.wf(),
            r == Self::fresh_spec(if 4 <= lb_bits <= 6 {
                lb_bits as int
            } else {
                6
            }),
    {
        let lb_bits: u8 = if 4 <= lb_bits && lb_bits <= 6 {
            lb_bits
        } else {
            6
        };
        LowBand {
            mag_bits: lb_bits - 1,
            s: 0,
            det: 64,
            r1: 0,
            r2: 0,
            d_hist: [0, 0, 0, 0, 0, 0],
            a1: 0,
            a2: 0,
            b: [0, 0, 0, 0, 0, 0],
        }
    }

    /// Total code width (sign and magnitude).
    pub fn lb_bits(&self) -> (r: u8)
        requires
            self.wf(),
        ensures
            r == self.lb_bits_view(),
    {
        self.mag_bits + 1
    }

    /// Prediction of the next sample (shared by encoder and decoder).
    pub fn prediction(&self) -> (r: i32)
        ensures
            r == self.prediction_view(),
    {
        self.s
    }

    /// Current adaptive scale factor.
    pub fn scale_factor(&self) -> (r: i32)
        ensures
            r == self.scale_view(),
    {
        self.det
    }

    /// Encode a 15-bit sample into a code of the configured width.
    pub fn encode(&mut self, xl: i32) -> (r: u8)
        requires
            old(self).wf(),
            -16384 <= xl <= 16383,
            old(self).decode_ok(old(self).code_spec(xl as int)),
        ensures
            final(self).wf(),
            (*final(self), r as int) == old(self).encode_spec(xl as int),
            r < weight(old(self).lb_bits_view()),
    {
        proof {
            self.lemma_step_sizes();
        }
        let el: i32 = xl - self.s;
        let code: u8 = quantise(el, self.det, self.mag_bits);
        proof {
            assert(code as int % weight(self.mag_bits + 1) == code) by {
                vstd::arithmetic::div_mod::lemma_small_mod(code as nat, weight(self.mag_bits + 1) as nat);
            }
        }
        self.update(code);
        code
    }

    /// Decode `code` as [`Self::decode`] does when the step stays within
    /// 32-bit arithmetic; otherwise `None`, with the state unchanged.
    pub fn decode_checked(&mut self, code: u8) -> (r: Option<i32>)
        requires
            old(self).wf(),
        ensures
            final(self).wf(),
            match r {
                Some(v) => old(self).decode_ok(code as int) && (*final(self), v as int) == old(self).decode_spec(
                    code as int,
                ),
                None => !old(self).decode_ok(code as int) && *final(self) == *old(self),
            },
    {
        if self.step_fits_32(code) {
            Some(self.decode(code))
        } else {
            None
        }
    }

    /// Whether decoding `code` keeps every coefficient product within 32
    /// bits.
    fn step_fits_32(&self, code: u8) -> (b: bool)
        requires
            self.wf(),
        ensures
            b == self.decode_ok(code as int),
    {
        proof {
            self.lemma_step_sizes();
        }
        let c: u8 = code & code_mask(self.mag_bits);
        proof {
            lemma_code_layout();
            lemma_mask_width(code, self.mag_bits as int);
        }
        let dq: i32 = dequantise(c, self.det, self.mag_bits);
        proof {
            assert(dq as int == self.dq_spec(code as int));
            let cc: int = (code as int) % weight(self.mag_bits + 1);
            assert(0 <= cc);
            assert((cc % weight(self.mag_bits as int)) * step_size(self.det as int, self.mag_bits as int) <= 31
                * 65534);
            assert(0 <= (cc % weight(self.mag_bits as int)));
            assert(-0x20_0000 <= dq <= 0x20_0000);
        }
        let ghost bn = self.b_next(dq as int);
        let ghost dn = self.d_next(dq as int);
        let mut i: usize = 0;
        while i < 6
            invariant
                i <= 6,
                self.wf(),
                bn == self.b_next(dq as int),
                dn == self.d_next(dq as int),
                dq as int == self.dq_spec(code as int),
                -0x20_0000 <= dq <= 0x20_0000,
                forall|j: int| 0 <= j < i ==> -0x8000_0000 <= #[trigger] bn[j] * dn[j] <= 0x7fff_ffff,
            decreases 6 - i,
        {
            let d: i32 = if i == 0 {
                dq
            } else {
                self.d_hist[i - 1]
            };
            let bi: i32 = zero_coeff_next(self.b[i], dq, self.d_hist[i]);
            proof {
                assert(bi == bn[i as int]);
                assert(d == dn[i as int]);
                assert(-32768 <= bi <= 32767);
                assert(-0x20_0000 <= d <= 0x20_0000);
                assert(-0x8000_0000_0000 <= (bi as int) * (d as int) <= 0x8000_0000_0000) by (nonlinear_arith)
                    requires
                        -32768 <= bi <= 32767,
                        -0x20_0000 <= d <= 0x20_0000,
                ;
            }
            let prod: i64 = (bi as i64) * (d as i64);
            if prod < -0x8000_0000 || prod > 0x7fff_ffff {
                proof {
                    assert(!(-0x8000_0000 <= bn[i as int] * dn[i as int] <= 0x7fff_ffff));
                }
                return false;
            }
            i = i + 1;
        }
        true
    }

    /// Decode a code of the configured width (higher bits ignored) into
    /// the reconstructed sample.
    pub fn decode(&mut self, code: u8) -> (r: i32)
        requires
            old(self).wf(),
            old(self).decode_ok(code as int),
        ensures
            final(self).wf(),
            (*final(self), r as int) == old(self).decode_spec(code as int),
            -16384 <= r <= 16383,
    {
        proof {
            self.lemma_step_sizes();
        }
        let code: u8 = code & code_mask(self.mag_bits);
        proof {
            lemma_code_layout();
            lemma_mask_width(code, self.mag_bits as int);
        }
        let dq: i32 = dequantise(code, self.det, self.mag_bits);
        let r: i32 = sat15(self.s + dq);
        self.update_with_dq(code, dq, r);
        r
    }

    fn update(&mut self, code: u8)
        requires
            old(self).wf(),
            code < weight(old(self).mag_bits + 1),
            old(self).decode_ok(code as int),
        ensures
            final(self).wf(),
            *final(self) == old(self).decode_spec(code as int).0,
    {
        proof {
            self.lemma_step_sizes();
        }
        let code: u8 = code & code_mask(self.mag_bits);
        proof {
            lemma_code_layout();
            lemma_mask_width(code, self.mag_bits as int);
        }
        let dq: i32 = dequantise(code, self.det, self.mag_bits);
        let r: i32 = sat15(self.s + dq);
        self.update_with_dq(code, dq, r);
    }

    fn update_with_dq(&mut self, code: u8, dq: i32, r: i32)
        requires
            old(self).wf(),
            code < weight(old(self).mag_bits + 1),
            -0x20_0000 <= dq <= 0x20_0000,
            -16384 <= r <= 16383,
            (-65535 <= dq <= 65535 && forall|i: int| 0 <= i < 6 ==> -65535 <= #[trigger] old(self).d_hist[i] <= 65535)
                || products_fit(old(self).b_next(dq as int), old(self).d_next(dq as int)),
        ensures
            final(self).wf(),
            *final(self) == old(self).update_spec(code as int, dq as int, r as int),
    {
        proof {
            if !products_fit(self.b_next(dq as int), self.d_next(dq as int)) {
                self.lemma_small_products(dq as int);
            }
            self.lemma_step_sizes();
            lemma_code_layout();
            vstd::arithmetic::div_mod::lemma_small_mod(code as nat, weight(self.mag_bits + 1) as nat);
        }
        // Scale-factor adapter: the magnitude's top three bits pick the
        // log-domain step.
        let mag: i32 = code_magnitude(code, self.mag_bits);
        let shift: u8 = if self.mag_bits > 3 {
            self.mag_bits - 3
        } else {
            0
        };
        proof {
            assert((mag as u8 >> shift) == mag as int / weight(self.mag_bits - 3));
            assert(mag as int / weight(self.mag_bits - 3) < 8);
        }
        let w: i32 = WL[(((mag as u8) >> shift) as usize) & 0x7];
        proof {
            assert(((mag as u8 >> shift) as usize & 7usize) == (mag as u8 >> shift) as usize);
            crate::tables::lemma_table_ranges();
        }
        let new_det: i32 = adapt_det(self.det, w);
        self.det = new_det;

        // 6-zero predictor: each coefficient tracks the sign match of dq
        // with its delayed difference, with a slow decay.
        let ghost old_b: [i32; 6] = self.b;
        let ghost bn: [i32; 6] = old(self).b_next(dq as int);
        let mut new_b: [i32; 6] = [0, 0, 0, 0, 0, 0];
        let mut i: usize = 0;
        while i < 6
            invariant
                i <= 6,
                self.b == old_b,
                old_b == old(self).b,
                self.d_hist == old(self).d_hist,
                bn == old(self).b_next(dq as int),
                forall|k: int| 0 <= k < 6 ==> in16(#[trigger] old_b[k] as int),
                forall|k: int| 0 <= k < i ==> #[trigger] new_b[k] == bn[k],
            decreases 6 - i,
        {
            let old: i32 = self.b[i];
            proof {
                assert(in16(old_b[i as int] as int));
            }
            proof {
                assert((old >> 8u32) as int == old as int / 256) by {
                    crate::basicop::lemma_shr_is_div(old, 8);
                    assert(crate::basicop::two_pow(8) == 256) by {
                        reveal_with_fuel(crate::basicop::two_pow, 9);
                    }
                }
            }
            let decayed: i32 = old - (old >> 8);
            let delta: i32 = if dq == 0 || self.d_hist[i] == 0 {
                0
            } else if (dq > 0) == (self.d_hist[i] > 0) {
                128
            } else {
                -128
            };
            let v: i32 = decayed + delta;
            new_b[i] = if v < -32_768 {
                -32_768
            } else if v > 32_767 {
                32_767
            } else {
                v
            };
            i = i + 1;
        }
        proof {
            assert(new_b =~= bn);
        }
        self.b = new_b;

        // 2-pole predictor: leaky update keyed to the sign relation of r
        // with r1 / r2.
        let wd_pol2: i32 = if (r > 0) == (self.r2 > 0) && (r != 0 && self.r2 != 0) {
            64
        } else {
            -64
        };
        let a2_leak: i32 = leak_exec(self.a2);
        let a2_raw: i32 = a2_leak + wd_pol2;
        let a2_new: i32 = if a2_raw < -12_288 {
            -12_288
        } else if a2_raw > 12_288 {
            12_288
        } else {
            a2_raw
        };
        let wd_pol1: i32 = if (r > 0) == (self.r1 > 0) && (r != 0 && self.r1 != 0) {
            96
        } else {
            -96
        };
        let a1_leak: i32 = leak_exec(self.a1);
        let a1_raw: i32 = a1_leak + wd_pol1;
        let a2_pos: i32 = if a2_new > 0 {
            a2_new
        } else {
            0
        };
        let a1_limit: i32 = 15_360 - a2_pos;
        let lim: i32 = if a1_limit > 1 {
            a1_limit
        } else {
            1
        };
        let a1_new: i32 = if a1_raw < -lim {
            -lim
        } else if a1_raw > lim {
            lim
        } else {
            a1_raw
        };
        self.a1 = a1_new;
        self.a2 = a2_new;

        // Shift the histories.
        self.d_hist[5] = self.d_hist[4];
        self.d_hist[4] = self.d_hist[3];
        self.d_hist[3] = self.d_hist[2];
        self.d_hist[2] = self.d_hist[1];
        self.d_hist[1] = self.d_hist[0];
        self.d_hist[0] = dq;
        proof {
            assert(self.d_hist =~= old(self).d_next(dq as int));
        }
        self.r2 = self.r1;
        self.r1 = r;

        // Next prediction s = a1 * r1 + a2 * r2 + sum(b_i * d_i), each
        // product taken in Q15.
        let mut sz: i32 = 0;
        let mut k: usize = 0;
        while k < 6
            invariant
                k <= 6,
                products_fit(self.b, self.d_hist),
                forall|j: int| 0 <= j < 6 ==> in16(#[trigger] self.b[j] as int),
                sz == zero_sum(self.b, self.d_hist, k as int),
                -65536 * k <= sz <= 65536 * k,
            decreases 6 - k,
        {
            let p: i32 = self.b[k] * self.d_hist[k];
            proof {
                lemma_shr15(p);
                assert(-65536 <= p as int / 32768 <= 65536);
            }
            sz = sz + (p >> 15);
            k = k + 1;
        }
        proof {
            lemma_pole_products(self.a1 as int, self.r1 as int, self.a2 as int, self.r2 as int);
        }
        let p1: i32 = self.a1 * self.r1;
        let p2: i32 = self.a2 * self.r2;
        proof {
            lemma_shr15(p1);
            lemma_shr15(p2);
        }
        let sp: i32 = (p1 >> 15) + (p2 >> 15);
        self.s = sat15(sp + sz);
        proof {
            old(self).lemma_update_wf(code as int, dq as int, r as int);
        }
    }
}

/// A masked code fits the code width.
proof fn lemma_mask_width(code: u8, mag_bits: int)
    requires
        3 <= mag_bits <= 5,
    ensures
        code as int % weight(mag_bits + 1) < weight(mag_bits + 1),
{
}

/// Products of the pole coefficients with 15-bit samples fit in 32 bits.
proof fn lemma_pole_products(a1: int, r1: int, a2: int, r2: int)
    requires
        -15360 <= a1 <= 15360,
        -12288 <= a2 <= 12288,
        -16384 <= r1 <= 16383,
        -16384 <= r2 <= 16383,
    ensures
        -0x1000_0000 <= a1 * r1 <= 0x1000_0000,
        -0x1000_0000 <= a2 * r2 <= 0x1000_0000,
{
    assert(-0x1000_0000 <= a1 * r1 <= 0x1000_0000) by (nonlinear_arith)
        requires
            -15360 <= a1 <= 15360,
            -16384 <= r1 <= 16383,
    ;
    assert(-0x1000_0000 <= a2 * r2 <= 0x1000_0000) by (nonlinear_arith)
        requires
            -12288 <= a2 <= 12288,
            -16384 <= r2 <= 16383,
    ;
}

impl LowBand {
    /// The quantiser arithmetic of a well-formed state stays within 32
    /// bits.
    proof fn lemma_step_sizes(self)
        requires
            self.wf(),
        ensures
            step_fits(self.det as int, self.mag_bits as int),
            2 * self.det <= step_size(self.det as int, self.mag_bits as int) <= 262136,
            forall|c: int| 0 <= c ==> 0 <= #[trigger] (c % weight(self.mag_bits as int)) < weight(self.mag_bits as int),
            forall|c: int|
                0 <= c ==> #[trigger] (c % weight(self.mag_bits as int)) * step_size(
                    self.det as int,
                    self.mag_bits as int,
                ) <= 31 * 65534,
            weight(self.mag_bits as int) <= 32,
            weight(self.mag_bits as int) * 2 == weight(self.mag_bits + 1),
    {
        let st = step_size(self.det as int, self.mag_bits as int);
        let det = self.det as int;
        if self.mag_bits == 3 {
            assert(weight(2) == 4 && st == 8 * det);
        } else if self.mag_bits == 4 {
            assert(weight(1) == 2 && st == 4 * det);
        } else {
            assert(weight(0) == 1 && st == 2 * det);
        }
        assert forall|c: int| 0 <= c implies #[trigger] (c % weight(self.mag_bits as int)) * st <= 31 * 65534 by {
            let m = c % weight(self.mag_bits as int);
            if self.mag_bits == 3 {
                assert(0 <= m <= 7);
                assert(m * st <= 31 * 65534) by (nonlinear_arith)
                    requires
                        0 <= m <= 7,
                        st == 8 * det,
                        8 <= det <= 32767,
                ;
            } else if self.mag_bits == 4 {
                assert(0 <= m <= 15);
                assert(m * st <= 31 * 65534) by (nonlinear_arith)
                    requires
                        0 <= m <= 15,
                        st == 4 * det,
                        8 <= det <= 32767,
                ;
            } else {
                assert(0 <= m <= 31);
                assert(m * st <= 31 * 65534) by (nonlinear_arith)
                    requires
                        0 <= m <= 31,
                        st == 2 * det,
                        8 <= det <= 32767,
                ;
            }
        }
    }

    /// With differences within 17 bits, the coefficient products of the
    /// next step fit in 32 bits.
    proof fn lemma_small_products(self, dq: int)
        requires
            self.wf(),
            -65535 <= dq <= 65535,
            forall|i: int| 0 <= i < 6 ==> -65535 <= #[trigger] self.d_hist[i] <= 65535,
        ensures
            products_fit(self.b_next(dq), self.d_next(dq)),
    {
        let bn = self.b_next(dq);
        let dn = self.d_next(dq);
        assert forall|i: int| 0 <= i < 6 implies -0x8000_0000 <= #[trigger] bn[i] * dn[i] <= 0x7fff_ffff by {
            let b: int = bn[i] as int;
            let d: int = dn[i] as int;
            assert(in16(b));
            assert(-65535 <= d <= 65535);
            assert(-0x8000_0000 <= b * d <= 0x7fff_ffff) by (nonlinear_arith)
                requires
                    -32768 <= b <= 32767,
                    -65535 <= d <= 65535,
            ;
        }
    }

    /// One step keeps the ranges.
    proof fn lemma_update_wf(self, code: int, dq: int, r: int)
        requires
            self.wf(),
            0 <= code < weight(self.mag_bits + 1),
            -0x20_0000 <= dq <= 0x20_0000,
            -16384 <= r <= 16383,
        ensures
            self.update_spec(code, dq, r).wf(),
    {
        self.lemma_step_sizes();
        crate::tables::lemma_table_ranges();
        let mag = code % weight(self.mag_bits as int);
        assert(mag / weight(self.mag_bits - 3) < 8);
        let bn = self.b_next(dq);
        assert forall|i: int| 0 <= i < 6 implies in16(#[trigger] bn[i] as int) by {}
        let nxt = self.update_spec(code, dq, r);
        assert forall|i: int| 0 <= i < 6 implies -0x20_0000 <= #[trigger] nxt.d_hist[i] <= 0x20_0000 by {}
    }
}

impl Default for LowBand {
    /// The Mode 1 (6-bit) state of [`LowBand::new`].
    fn default() -> (r: Self)
        ensures
            r.wf(),
            r == Self::fresh_spec(6),
    {
        Self::new()
    }
}

// -----------------------------------------------------------------------
// Laws
// -----------------------------------------------------------------------

/// Encoder and decoder stay in lockstep: encoding a sample moves the
/// state exactly as decoding the emitted code does, on the same state.
pub proof fn lemma_low_band_lockstep(st: LowBand, xl: int)
    requires
        st.wf(),
        -16384 <= xl <= 16383,
    ensures
        st.encode_spec(xl).0 == st.decode_spec(st.encode_spec(xl).1).0,
        st.encode_spec(xl).1 == st.code_spec(xl),
        0 <= st.code_spec(xl) < weight(st.lb_bits_view()),
{
    st.lemma_step_sizes();
}

/// Silence stays silent: from a silent state, the sample 0 encodes to
/// code 0, code 0 decodes to 0, and the next state is silent again.
pub proof fn lemma_low_band_silence(st: LowBand)
    requires
        st.wf(),
        st.silent(),
    ensures
        st.code_spec(0) == 0,
        st.decode_ok(0),
        st.decode_spec(0).1 == 0,
        st.decode_spec(0).0.silent(),
        st.decode_spec(0).0.wf(),
        st.encode_spec(0).0 == st.decode_spec(0).0,
{
    st.lemma_step_sizes();
    assert(0int % weight(st.mag_bits + 1) == 0);
    assert(st.dq_spec(0) == 0);
    let bn = st.b_next(0);
    let dn = st.d_next(0);
    assert(dn == [0i32, 0, 0, 0, 0, 0]);
    assert forall|i: int| 0 <= i < 6 implies #[trigger] bn[i] * dn[i] == 0 by {
        assert(dn[i] == 0);
        assert(bn[i] * dn[i] == 0) by (nonlinear_arith)
            requires
                dn[i] == 0,
        ;
    }
    assert(products_fit(bn, dn));
    reveal_with_fuel(zero_sum, 7);
    st.lemma_update_wf(0, 0, 0);
}

/// A freshly constructed state is well formed and silent.
pub proof fn lemma_low_band_fresh(lb_bits: int)
    requires
        4 <= lb_bits <= 6,
    ensures
        LowBand::fresh_spec(lb_bits).wf(),
        LowBand::fresh_spec(lb_bits).silent(),
        LowBand::fresh_spec(lb_bits).lb_bits_view() == lb_bits,
{
}

/// Quantising and dequantising loses at most half a step for every
/// difference within the quantiser's range `±step * (2^mag_bits - 1)`.
pub proof fn lemma_quantise_round_trip(el: int, det: int, mag_bits: int)
    requires
        3 <= mag_bits <= 5,
        8 <= det <= 32767,
        -(step_size(det, mag_bits) * (weight(mag_bits) - 1)) <= el <= step_size(det, mag_bits) * (
        weight(mag_bits) - 1),
    ensures
        -(step_size(det, mag_bits) / 2) <= dequantise_spec(
            quantise_spec(el, det, mag_bits),
            det,
            mag_bits,
        ) - el <= step_size(det, mag_bits) / 2,
{
    let step = step_size(det, mag_bits);
    let wm = weight(mag_bits);
    let max_mag = wm - 1;
    assert(step > 0 && step % 2 == 0 && wm >= 8) by {
        if mag_bits == 3 {
            assert(step == 8 * det);
        } else if mag_bits == 4 {
            assert(step == 4 * det);
        } else {
            assert(step == 2 * det);
        }
    }
    if el != 0 {
        let mag = if el < 0 {
            -el
        } else {
            el
        };
        let h = step / 2;
        assert(step == 2 * h);
        let idx0 = (mag + h) / step;
        vstd::arithmetic::div_mod::lemma_fundamental_div_mod(mag + h, step);
        let rem = (mag + h) % step;
        assert(mag + h == step * idx0 + rem && 0 <= rem < step);
        assert(idx0 <= max_mag) by (nonlinear_arith)
            requires
                mag + h == step * idx0 + rem,
                0 <= rem < step,
                mag <= step * max_mag,
                step == 2 * h,
                h > 0,
        ;
        vstd::arithmetic::div_mod::lemma_div_pos_is_pos(mag + h, step);
        assert(idx0 * step == step * idx0) by (nonlinear_arith);
        let code = quantise_spec(el, det, mag_bits);
        let q: int = if el < 0 {
            1
        } else {
            0
        };
        assert(code == q * wm + idx0);
        vstd::arithmetic::div_mod::lemma_fundamental_div_mod_converse(code, wm, q, idx0);
        assert(code % wm == idx0 && code / wm == q);
        let rec = dequantise_spec(code, det, mag_bits);
        if idx0 == 0 && el > 0 {
            assert(rec == 0);
            assert(step * idx0 == 0) by (nonlinear_arith)
                requires
                    idx0 == 0,
            ;
            assert(mag < h);
        } else if el < 0 {
            assert(rec == -(idx0 * step));
        } else {
            assert(rec == idx0 * step);
        }
    }
}

} // verus!
