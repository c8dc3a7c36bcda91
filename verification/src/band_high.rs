//! Self-consistent higher sub-band ADPCM: a 2-bit quantiser with a
//! 2-pole / 1-zero backward-adaptive predictor and a log-domain
//! scale-factor adapter.
//!
//! Like [`crate::band_low`], this coder is not the normative G.722
//! higher sub-band coder; its decoder is the exact inverse of its encoder
//! given the same codes ([`lemma_high_band_lockstep`]). Code layout: bit 0
//! is the sign (1 = negative), bit 1 the tier (0 = one step, 1 = three
//! steps); a zero difference maps to code 0, which reconstructs to 0.

use vstd::prelude::*;

use crate::band_low::{a1_next, a2_next, adapt_det_spec, leak, zero_next};
use crate::predictor::{clamp15, clamp16, in16, lemma_shr15};

verus! {

/// Log-domain scale-factor steps per code.
const HIGH_WH: [i32; 4] = [-214, -214, 798, 798];

/// 2-bit quantiser: the sign in bit 0 and, in bit 1, whether the
/// magnitude reaches two steps; zero maps to code 0.
pub open spec fn high_quantise_spec(eh: int, det: int) -> int {
    if eh == 0 {
        0
    } else {
        let mag = if eh < 0 {
            -eh
        } else {
            eh
        };
        let step = if det > 1 {
            det
        } else {
            1
        };
        (if eh < 0 {
            1int
        } else {
            0int
        }) + (if mag < 2 * step {
            0int
        } else {
            2int
        })
    }
}

/// Inverse quantiser: one or three times the scale factor, signed by
/// bit 0; code 0 reconstructs to 0.
pub open spec fn high_dequantise_spec(code: int, det: int) -> int {
    if code == 0 {
        0
    } else {
        let mag = if (code / 2) % 2 == 0 {
            det
        } else {
            3 * det
        };
        if code % 2 == 1 {
            -mag
        } else {
            mag
        }
    }
}

/// Higher sub-band ADPCM state; shared by the encoder and the decoder.
#[derive(Clone, Debug)]
pub struct HighBand {
    s: i32,
    det: i32,
    r1: i32,
    r2: i32,
    d_hist: [i32; 2],
    a1: i32,
    a2: i32,
    b0: i32,
}

impl HighBand {
    /// The ranges every reachable state keeps.
    pub closed spec fn wf(self) -> bool {
        &&& 8 <= self.det <= 32767
        &&& -16384 <= self.s <= 16383
        &&& -16384 <= self.r1 <= 16383
        &&& -16384 <= self.r2 <= 16383
        &&& -12288 <= self.a2 <= 12288
        &&& -15360 <= self.a1 <= 15360
        &&& in16(self.b0 as int)
        &&& -98301 <= self.d_hist[0] <= 98301
        &&& -98301 <= self.d_hist[1] <= 98301
    }

    /// Prediction of the next sample.
    pub closed spec fn prediction_view(self) -> int {
        self.s as int
    }

    /// Adaptive scale factor.
    pub closed spec fn scale_view(self) -> int {
        self.det as int
    }

    /// The state after construction.
    pub closed spec fn fresh_spec() -> HighBand {
        HighBand { s: 0, det: 64, r1: 0, r2: 0, d_hist: [0i32, 0], a1: 0, a2: 0, b0: 0 }
    }

    /// A silent state: prediction, reconstructions and delayed
    /// differences all zero.
    pub closed spec fn silent(self) -> bool {
        &&& self.s == 0
        &&& self.r1 == 0
        &&& self.r2 == 0
        &&& self.d_hist == [0i32, 0]
    }

    /// The difference reconstructed from `code` (cut to 2 bits).
    pub closed spec fn dq_spec(self, code: int) -> int {
        high_dequantise_spec(code % 4, self.det as int)
    }

    /// The zero coefficient after a step with difference `dq`.
    pub closed spec fn b0_next(self, dq: int) -> int {
        zero_next(self.b0 as int, dq, self.d_hist[0] as int)
    }

    /// The state after the step on code `code` with difference `dq` and
    /// reconstruction `r`.
    pub closed spec fn update_spec(self, code: int, dq: int, r: int) -> HighBand {
        let w = HIGH_WH[code % 4];
        let a2n = a2_next(self.a2 as int, r, self.r2 as int);
        let a1n = a1_next(self.a1 as int, a2n, r, self.r1 as int);
        let b0n = self.b0_next(dq);
        let sp = (a1n * r) / 32768 + (a2n * self.r1) / 32768;
        HighBand {
            s: clamp15(sp + (b0n * dq) / 32768) as i32,
            det: adapt_det_spec(self.det as int, w as int) as i32,
            r1: r as i32,
            r2: self.r1,
            d_hist: [dq as i32, self.d_hist[0]],
            a1: a1n as i32,
            a2: a2n as i32,
            b0: b0n as i32,
        }
    }

    /// The step on `code` stays within 32-bit arithmetic.
    pub closed spec fn decode_ok(self, code: int) -> bool {
        -0x8000_0000 <= self.b0_next(self.dq_spec(code)) * self.dq_spec(code) <= 0x7fff_ffff
    }

    /// Decoding `code`: the next state and the reconstructed sample.
    pub closed spec fn decode_spec(self, code: int) -> (HighBand, int) {
        let dq = self.dq_spec(code);
        let r = clamp15(self.s + dq);
        (self.update_spec(code % 4, dq, r), r)
    }

    /// The code the encoder picks for the sample `xh`.
    pub closed spec fn code_spec(self, xh: int) -> int {
        high_quantise_spec(xh - self.s, self.det as int)
    }

    /// Encoding `xh`: the next state and the code.
    pub closed spec fn encode_spec(self, xh: int) -> (HighBand, int) {
        (self.decode_spec(self.code_spec(xh)).0, self.code_spec(xh))
    }
}

/// Fields of a 2-bit code, bit by bit.
proof fn lemma_high_code_bits()
    by (bit_vector)
    ensures
        forall|c: u8| #[trigger] (c & 3u8) == c % 4,
        forall|c: u8| #[trigger] (c & 1u8) == c % 2,
        forall|c: u8| #[trigger] ((c >> 1u8) & 1u8) == (c / 2) % 2,
        forall|s: u8, t: u8| s <= 1 && t <= 1 ==> #[trigger] (s | (t << 1u8)) == s + 2 * t,
{
}

/// 2-bit quantiser.
fn quantise(eh: i32, det: i32) -> (r: u8)
    requires
        -32768 <= eh <= 32768,
        8 <= det <= 32767,
    ensures
        r == high_quantise_spec(eh as int, det as int),
        r < 4,
{
    if eh == 0 {
        return 0;
    }
    let sign: bool = eh < 0;
    let mag: i32 = if eh < 0 {
        -eh
    } else {
        eh
    };
    let step: i32 = if det > 1 {
        det
    } else {
        1
    };
    let tier: u8 = if mag < 2 * step {
        0
    } else {
        1
    };
    let s: u8 = if sign {
        1
    } else {
        0
    };
    proof {
        lemma_high_code_bits();
    }
    s | (tier << 1)
}

/// Inverse quantiser.
fn dequantise(code: u8, det: i32) -> (r: i32)
    requires
        8 <= det <= 32767,
    ensures
        r == high_dequantise_spec(code as int, det as int),
{
    if code == 0 {
        return 0;
    }
    proof {
        lemma_high_code_bits();
    }
    let sign: u8 = code & 1;
    let tier: u8 = (code >> 1) & 1;
    let mag: i32 = if tier == 0 {
        det
    } else {
        det * 3
    };
    if sign == 1 {
        -mag
    } else {
        mag
    }
}

/// The log-domain scale-factor update, held to `8 ..= 32767`.
fn adapt_det(det: i32, w: i32) -> (r: i32)
    requires
        8 <= det <= 32767,
        -4096 <= w <= 4096,
    ensures
        r == adapt_det_spec(det as int, w as int),
{
    proof {
        assert(0 <= det * (4096 + w) <= 32767 * 8192) by (nonlinear_arith)
            requires
                8 <= det <= 32767,
                -4096 <= w <= 4096,
        ;
    }
    let scaled: i64 = (det as i64 * (4096 + w as i64)) / 4096;
    let v: i32 = scaled as i32;
    if v < 8 {
        8
    } else if v > 32_767 {
        32_767
    } else {
        v
    }
}

/// Saturation into the 15-bit range.
fn sat15(v: i32) -> (r: i32)
    ensures
        r == clamp15(v as int),
{
    if v < -16_384 {
        -16_384
    } else if v > 16_383 {
        16_383
    } else {
        v
    }
}

/// The leak of a pole coefficient, truncating toward zero.
fn leak_exec(a: i32) -> (r: i32)
    requires
        -32768 <= a <= 32768,
    ensures
        r == leak(a as int),
        -32768 <= r <= 32768,
{
    let p: i64 = a as i64 * 32_640;
    let q: i64 = if p >= 0 {
        p / 32_768
    } else {
        -((-p) / 32_768)
    };
    q as i32
}

impl HighBand {
    /// A fresh higher sub-band state.
    pub fn new() -> (r: Self)
        ensures
            r.wf(),
            r == Self::fresh_spec(),
    {
        HighBand { s: 0, det: 64, r1: 0, r2: 0, d_hist: [0, 0], a1: 0, a2: 0, b0: 0 }
    }

    /// Prediction of the next sample (shared by encoder and decoder).
    pub fn prediction(&self) -> (r: i32)
        ensures
            r == self.prediction_view(),
    {
        self.s
    }

    /// Current adaptive scale factor.
    pub fn scale_factor(&self) -> (r: i32)
        ensures
            r == self.scale_view(),
    {
        self.det
    }

    /// Encode a 15-bit sample into a 2-bit code.
    pub fn encode(&mut self, xh: i32) -> (r: u8)
        requires
            old(self).wf(),
            -16384 <= xh <= 16383,
            old(self).decode_ok(old(self).code_spec(xh as int)),
        ensures
            final(self).wf(),
            (*final(self), r as int) == old(self).encode_spec(xh as int),
            r < 4,
    {
        let eh: i32 = xh - self.s;
        let code: u8 = quantise(eh, self.det);
        self.update(code);
        code
    }

    /// Decode `code` as [`Self::decode`] does when the step stays within
    /// 32-bit arithmetic; otherwise `None`, with the state unchanged.
    pub fn decode_checked(&mut self, code: u8) -> (r: Option<i32>)
        requires
            old(self).wf(),
        ensures
            final(self).wf(),
            match r {
                Some(v) => old(self).decode_ok(code as int) && (*final(self), v as int) == old(self).decode_spec(
                    code as int,
                ),
                None => !old(self).decode_ok(code as int) && *final(self) == *old(self),
            },
    {
        proof {
            lemma_high_code_bits();
        }
        let c: u8 = code & 0x3;
        let dq: i32 = dequantise(c, self.det);
        let b: i32 = crate::band_low::zero_coeff_next(self.b0, dq, self.d_hist[0]);
        proof {
            assert(dq as int == self.dq_spec(code as int));
            assert(b as int == self.b0_next(dq as int));
            assert(-0x8000_0000_0000 <= (b as int) * (dq as int) <= 0x8000_0000_0000) by (nonlinear_arith)
                requires
                    -32768 <= b <= 32767,
                    -0x10_0000 <= dq <= 0x10_0000,
            ;
        }
        let prod: i64 = (b as i64) * (dq as i64);
        if prod < -0x8000_0000 || prod > 0x7fff_ffff {
            None
        } else {
            Some(self.decode(code))
        }
    }

    /// Decode a 2-bit code (higher bits ignored) into the reconstructed
    /// sample.
    pub fn decode(&mut self, code: u8) -> (r: i32)
        requires
            old(self).wf(),
            old(self).decode_ok(code as int),
        ensures
            final(self).wf(),
            (*final(self), r as int) == old(self).decode_spec(code as int),
            -16384 <= r <= 16383,
    {
        proof {
            lemma_high_code_bits();
        }
        let code: u8 = code & 0x3;
        let dq: i32 = dequantise(code, self.det);
        let r: i32 = sat15(self.s + dq);
        self.update_with(code, dq, r);
        r
    }

    fn update(&mut self, code: u8)
        requires
            old(self).wf(),
            code < 4,
            old(self).decode_ok(code as int),
        ensures
            final(self).wf(),
            *final(self) == old(self).decode_spec(code as int).0,
    {
        proof {
            lemma_high_code_bits();
        }
        let code: u8 = code & 0x3;
        let dq: i32 = dequantise(code, self.det);
        let r: i32 = sat15(self.s + dq);
        self.update_with(code, dq, r);
    }

    /// With a difference within 17 bits, the coefficient product of the
    /// next step fits in 32 bits.
    proof fn lemma_small_product(self, dq: int)
        requires
            self.wf(),
            -65535 <= dq <= 65535,
        ensures
            -0x8000_0000 <= self.b0_next(dq) * dq <= 0x7fff_ffff,
    {
        let b: int = self.b0_next(dq);
        assert(in16(b));
        assert(-0x8000_0000 <= b * dq <= 0x7fff_ffff) by (nonlinear_arith)
            requires
                -32768 <= b <= 32767,
                -65535 <= dq <= 65535,
        ;
    }

    #[verifier::rlimit(40)]
    fn update_with(&mut self, code: u8, dq: i32, r: i32)
        requires
            old(self).wf(),
            code < 4,
            -98301 <= dq <= 98301,
            -16384 <= r <= 16383,
            -65535 <= dq <= 65535 || -0x8000_0000 <= old(self).b0_next(dq as int) * dq <= 0x7fff_ffff,
        ensures
            final(self).wf(),
            *final(self) == old(self).update_spec(code as int, dq as int, r as int),
    {
        proof {
            if -65535 <= dq <= 65535 {
                self.lemma_small_product(dq as int);
            }
            assert(-0x8000_0000 <= self.b0_next(dq as int) * dq <= 0x7fff_ffff);
            lemma_high_code_bits();
        }
        // Log-domain scale-factor adapter.
        let w: i32 = HIGH_WH[(code & 0x3) as usize];
        self.det = adapt_det(self.det, w);

        // Single-zero predictor coefficient.
        let old_b0: i32 = self.b0;
        proof {
            assert((old_b0 >> 8u32) as int == old_b0 as int / 256) by {
                crate::basicop::lemma_shr_is_div(old_b0, 8);
                assert(crate::basicop::two_pow(8) == 256) by {
                    reveal_with_fuel(crate::basicop::two_pow, 9);
                }
            }
        }
        let decayed: i32 = old_b0 - (old_b0 >> 8);
        let delta: i32 = if dq == 0 || self.d_hist[0] == 0 {
            0
        } else if (dq > 0) == (self.d_hist[0] > 0) {
            128
        } else {
            -128
        };
        let v: i32 = decayed + delta;
        self.b0 = if v < -32_768 {
            -32_768
        } else if v > 32_767 {
            32_767
        } else {
            v
        };

        // 2-pole predictor coefficients.
        let wd_pol2: i32 = if (r > 0) == (self.r2 > 0) && (r != 0 && self.r2 != 0) {
            64
        } else {
            -64
        };
        let a2_raw: i32 = leak_exec(self.a2) + wd_pol2;
        let a2_new: i32 = if a2_raw < -12_288 {
            -12_288
        } else if a2_raw > 12_288 {
            12_288
        } else {
            a2_raw
        };
        let wd_pol1: i32 = if (r > 0) == (self.r1 > 0) && (r != 0 && self.r1 != 0) {
            96
        } else {
            -96
        };
        let a1_raw: i32 = leak_exec(self.a1) + wd_pol1;
        let a2_pos: i32 = if a2_new > 0 {
            a2_new
        } else {
            0
        };
        let a1_limit: i32 = 15_360 - a2_pos;
        let lim: i32 = if a1_limit > 1 {
            a1_limit
        } else {
            1
        };
        let a1_new: i32 = if a1_raw < -lim {
            -lim
        } else if a1_raw > lim {
            lim
        } else {
            a1_raw
        };
        self.a1 = a1_new;
        self.a2 = a2_new;

        // Shift the histories.
        self.d_hist[1] = self.d_hist[0];
        self.d_hist[0] = dq;
        self.r2 = self.r1;
        self.r1 = r;

        // Next prediction.
        proof {
            assert(-0x1000_0000 <= a1_new * r <= 0x1000_0000) by (nonlinear_arith)
                requires
                    -15360 <= a1_new <= 15360,
                    -16384 <= r <= 16383,
            ;
            assert(-0x1000_0000 <= a2_new * self.r2 <= 0x1000_0000) by (nonlinear_arith)
                requires
                    -12288 <= a2_new <= 12288,
                    -16384 <= self.r2 <= 16383,
            ;
        }
        let p1: i32 = self.a1 * self.r1;
        let p2: i32 = self.a2 * self.r2;
        let p3: i32 = self.b0 * self.d_hist[0];
        proof {
            lemma_shr15(p1);
            lemma_shr15(p2);
            lemma_shr15(p3);
        }
        let sp: i32 = (p1 >> 15) + (p2 >> 15);
        let sz: i32 = p3 >> 15;
        self.s = sat15(sp + sz);
        proof {
            assert(-98301 <= dq <= 98301);
            assert(self.d_hist =~= [dq, old(self).d_hist[0]]);
        }
    }
}

impl Default for HighBand {
    /// The state of [`HighBand::new`].
    fn default() -> (r: Self)
        ensures
            r.wf(),
            r == Self::fresh_spec(),
    {
        Self::new()
    }
}

// -----------------------------------------------------------------------
// Laws
// -----------------------------------------------------------------------

/// Encoder and decoder stay in lockstep: encoding a sample moves the
/// state exactly as decoding the emitted code does, on the same state.
pub proof fn lemma_high_band_lockstep(st: HighBand, xh: int)
    requires
        st.wf(),
        -16384 <= xh <= 16383,
    ensures
        st.encode_spec(xh).0 == st.decode_spec(st.encode_spec(xh).1).0,
        0 <= st.code_spec(xh) < 4,
{
}

/// Silence stays silent: from a silent state, the sample 0 encodes to
/// code 0, code 0 decodes to 0, and the next state is silent again.
pub proof fn lemma_high_band_silence(st: HighBand)
    requires
        st.wf(),
        st.silent(),
    ensures
        st.code_spec(0) == 0,
        st.decode_ok(0),
        st.decode_spec(0).1 == 0,
        st.decode_spec(0).0.silent(),
        st.encode_spec(0).0 == st.decode_spec(0).0,
{
    assert(st.dq_spec(0) == 0);
    assert(st.b0_next(0) * 0 == 0);
    assert(st.decode_spec(0).0.d_hist =~= [0i32, 0]);
}

/// A freshly constructed state is well formed and silent.
pub proof fn lemma_high_band_fresh()
    ensures
        HighBand::fresh_spec().wf(),
        HighBand::fresh_spec().silent(),
{
}

} // verus!
