//! G.722 SB-ADPCM decoder (receive path, clauses 4 and 5).
//!
//! * `LowerDecoderState` — lower sub-band ADPCM decoder (blocks 2L to
//!   6L): INVQAL drives the predictor, the mode-dependent INVQBL the
//!   output, LIMIT saturates it.
//! * `HigherDecoderState` — higher sub-band ADPCM decoder (blocks 2H
//!   to 5H).
//! * `ReceiveQmf` — the 24-tap receive QMF (clause 5.2.2).
//! * [`Decoder`] — the three together behind the octet interface of
//!   clause 1.4.4.

use vstd::prelude::*;
use crate::mode::Mode;
use crate::predictor::{
    add_sat, clamp16, higher_adapt_spec, in16, invq2_spec, invq4, invq4_spec, lemma_higher_adapt_wf, lemma_lower_adapt_wf,
    lemma_invq_range, lemma_mul_bound, lower_adapt_pred_spec, lower_adapt_spec, mul_q15, q15, signed_level, sub_sat,
    SubBandState,
};
use crate::tables::{
    lemma_table_ranges, IL5_FROM_IL5, IL6_FROM_IL6, QMF_TAPS, QQ5, QQ6, SIL_FROM_IL5,
    SIL_FROM_IL6,
};

verus! {

/// LIMIT: saturation to the 15-bit output range `-16384 ..= 16383`
/// (Table 9).
pub open spec fn limit_spec(y: int) -> int {
    if y > 16383 {
        16383
    } else if y < -16384 {
        -16384
    } else {
        y
    }
}

/// 6-bit INVQBL (Table 18).
pub open spec fn invq6_spec(code6: int, det: int) -> int {
    q15(det, signed_level(QQ6[IL6_FROM_IL6[code6] as int] as int, SIL_FROM_IL6[code6] as int))
}

/// 5-bit INVQBL (Table 19).
pub open spec fn invq5_spec(code5: int, det: int) -> int {
    q15(det, signed_level(QQ5[IL5_FROM_IL5[code5] as int] as int, SIL_FROM_IL5[code5] as int))
}

/// INVQBL: the decoder-output difference for the received 6-bit
/// code-word `ilr`, using as many of its bits as `mode` leaves to audio.
pub open spec fn invqbl_spec(ilr: int, det: int, mode: Mode) -> int {
    match mode {
        Mode::Mode1 => invq6_spec(ilr, det),
        Mode::Mode2 => invq5_spec(ilr / 2, det),
        Mode::Mode3 => invq4_spec(ilr / 4, det),
    }
}

/// The lower sub-band reconstructed output `R_L` for the code-word
/// `ilr` from the state `s` (RECONS then LIMIT).
pub open spec fn lower_output_spec(s: SubBandState, ilr: int, mode: Mode) -> int {
    limit_spec(clamp16(s.predicted() + invqbl_spec(ilr, s.detl as int, mode)))
}

/// The higher sub-band reconstructed output `R_H` for the code-word
/// `ih` from the state `s`.
pub open spec fn higher_output_spec(s: SubBandState, ih: int) -> int {
    limit_spec(clamp16(s.predicted() + invq2_spec(ih, s.detl as int)))
}

/// LIMIT (block 6L).
fn limit_output(yl: i32) -> (r: i32)
    ensures
        r == limit_spec(yl as int),
{
    if yl > 16383 {
        16383
    } else if yl < -16384 {
        -16384
    } else {
        yl
    }
}

/// Fields of a code-word, bit by bit.
proof fn lemma_code_word_fields()
    by (bit_vector)
    ensures
        forall|x: u32| #[trigger] (x >> 2u32) == x / 4,
        forall|x: u32| #[trigger] (x & 15u32) == x % 16,
        forall|x: u32| #[trigger] (x & 3u32) == x % 4,
{
}

/// Lower sub-band ADPCM decoder.
#[derive(Debug, Clone)]
pub struct LowerDecoderState {
    pub(crate) s: SubBandState,
}

impl LowerDecoderState {
    pub(crate) open spec fn wf(self) -> bool {
        self.s.wf() && self.s.is_lower()
    }

    pub(crate) fn new() -> (r: Self)
        ensures
            r.wf(),
            r.s == r.s.reset_spec(),
    {
        LowerDecoderState { s: SubBandState::new_lower() }
    }

    pub(crate) fn reset(&mut self)
        requires
            old(self).wf(),
        ensures
            final(self).wf(),
            final(self).s == old(self).s.reset_spec(),
    {
        self.s.reset();
    }

    /// INVQAL: the quantized difference `D_LT` of the predictor-update
    /// path, from the four MSBs of the 6-bit code-word `il`.
    pub fn invqal(il: u32, detl: i32) -> (r: i32)
        requires
            0 <= detl <= 32064,
        ensures
            r == invq4_spec(((il / 4) % 16) as int, detl as int),
    {
        let ril: u32 = il >> 2;
        proof {
            lemma_code_word_fields();
        }
        invq4((ril & 0xF) as usize, detl)
    }

    /// INVQBL for the received code-word in the current mode.
    fn invqbl(ilr: u32, detl: i32, mode: Mode) -> (r: i32)
        requires
            ilr < 64,
            0 <= detl <= 32064,
        ensures
            r == invqbl_spec(ilr as int, detl as int, mode),
            in16(r as int),
    {
        proof {
            lemma_table_ranges();
        }
        match mode {
            Mode::Mode1 => {
                let ril: usize = ilr as usize;
                let il6: usize = IL6_FROM_IL6[ril] as usize;
                let sil: i32 = SIL_FROM_IL6[ril];
                let wd1: i32 = QQ6[il6] * 8;
                let wd2: i32 = if sil == 0 {
                    wd1
                } else {
                    -wd1
                };
                proof {
                    lemma_invq_range(detl as int, wd2 as int);
                }
                mul_q15(detl, wd2)
            },
            Mode::Mode2 => {
                let ril: usize = (ilr / 2) as usize;
                let il5: usize = IL5_FROM_IL5[ril] as usize;
                let sil: i32 = SIL_FROM_IL5[ril];
                let wd1: i32 = QQ5[il5] * 8;
                let wd2: i32 = if sil == 0 {
                    wd1
                } else {
                    -wd1
                };
                proof {
                    lemma_invq_range(detl as int, wd2 as int);
                }
                mul_q15(detl, wd2)
            },
            Mode::Mode3 => invq4((ilr / 4) as usize, detl),
        }
    }

    /// One 8 kHz sample of the lower sub-band decoder: returns `R_L`.
    pub(crate) fn step(&mut self, ilr: u32, mode: Mode) -> (r: i32)
        requires
            old(self).wf(),
            ilr < 64,
        ensures
            final(self).wf(),
            final(self).s == lower_adapt_spec(old(self).s, ilr as int / 4),
            r == lower_output_spec(old(self).s, ilr as int, mode),
    {
        let (sl, szl) = self.s.predict();
        let dl: i32 = Self::invqbl(ilr, self.s.detl, mode);
        let rl: i32 = limit_output(add_sat(sl, dl));
        self.s.lower_update(sl, szl, (ilr / 4) as usize);
        rl
    }
}

impl LowerDecoderState {
    /// One 8 kHz sample of the lower sub-band decoder with the
    /// prediction `(sl, szl)` supplied by the caller in place of the
    /// predictor's own (the hand-over after a concealed frame).
    pub(crate) fn step_pred(&mut self, ilr: u32, mode: Mode, sl: i32, szl: i32) -> (r: i32)
        requires
            old(self).wf(),
            ilr < 64,
            in16(sl as int),
            in16(szl as int),
        ensures
            final(self).wf(),
            final(self).s == lower_adapt_pred_spec(old(self).s, ilr as int / 4, sl as int, szl as int),
            r == limit_spec(clamp16(sl + invqbl_spec(ilr as int, old(self).s.detl as int, mode))),
    {
        let dl: i32 = Self::invqbl(ilr, self.s.detl, mode);
        let rl: i32 = limit_output(add_sat(sl, dl));
        self.s.lower_update_pred(sl, szl, (ilr / 4) as usize);
        rl
    }
}

/// Higher sub-band ADPCM decoder.
#[derive(Debug, Clone)]
pub struct HigherDecoderState {
    pub(crate) s: SubBandState,
}

impl HigherDecoderState {
    pub(crate) open spec fn wf(self) -> bool {
        self.s.wf() && self.s.is_higher()
    }

    pub(crate) fn new() -> (r: Self)
        ensures
            r.wf(),
            r.s == r.s.reset_spec(),
    {
        HigherDecoderState { s: SubBandState::new_higher() }
    }

    pub(crate) fn reset(&mut self)
        requires
            old(self).wf(),
        ensures
            final(self).wf(),
            final(self).s == old(self).s.reset_spec(),
    {
        self.s.reset();
    }

    /// INVQAH: the quantized difference `D_H` for the 2-bit code-word
    /// `ih` (higher bits ignored).
    pub fn invqah(ih: u32, deth: i32) -> (r: i32)
        requires
            0 <= deth <= 32064,
        ensures
            r == invq2_spec((ih % 4) as int, deth as int),
    {
        proof {
            lemma_code_word_fields();
        }
        crate::predictor::invq2((ih & 0x3) as usize, deth)
    }

    /// One 8 kHz sample of the higher sub-band decoder: returns `R_H`.
    pub(crate) fn step(&mut self, ih: u32) -> (r: i32)
        requires
            old(self).wf(),
            ih < 4,
        ensures
            final(self).wf(),
            final(self).s == higher_adapt_spec(old(self).s, ih as int),
            r == higher_output_spec(old(self).s, ih as int),
    {
        let (sh, szh) = self.s.predict();
        let dh: i32 = crate::predictor::invq2(ih as usize, self.s.detl);
        let rh: i32 = limit_output(add_sat(sh, dh));
        self.s.higher_update(sh, szh, ih as usize);
        rh
    }
}

} // verus!

verus! {

/// The QMF accumulator over the first `n` taps of one polyphase branch:
/// `Σ_{i < n} x[i] · H_{2i + phase}` (sub-blocks ACCUMC / ACCUMD).
pub open spec fn tap_sum(x: [i32; 12], phase: int, n: int) -> int
    decreases n,
{
    if n <= 0 {
        0
    } else {
        tap_sum(x, phase, n - 1) + x[n - 1] as int * QMF_TAPS[2 * (n - 1) + phase] as int
    }
}

/// All twelve samples of a QMF delay line are 16-bit words.
pub open spec fn line_in16(x: [i32; 12]) -> bool {
    forall|i: int| 0 <= i < 12 ==> in16(#[trigger] x[i] as int)
}

/// The delay line after pushing `v` in front.
pub open spec fn push_line(x: [i32; 12], v: i32) -> [i32; 12] {
    [v, x[0], x[1], x[2], x[3], x[4], x[5], x[6], x[7], x[8], x[9], x[10]]
}

/// One polyphase branch of a QMF delay line: the full accumulator
/// `Σ x[i] · H_{2i + phase}` computed in 64 bits.
fn branch_sum(x: &[i32; 12], phase: usize) -> (r: i64)
    requires
        line_in16(*x),
        phase < 2,
    ensures
        r == tap_sum(*x, phase as int, 12),
        -12 * 32768 * 3876 <= r <= 12 * 32768 * 3876,
{
    proof {
        lemma_table_ranges();
    }
    let mut acc: i64 = 0;
    let mut i: usize = 0;
    while i < 12
        invariant
            line_in16(*x),
            phase < 2,
            i <= 12,
            acc == tap_sum(*x, phase as int, i as int),
            -(i as int) * 32768 * 3876 <= acc <= (i as int) * 32768 * 3876,
        decreases 12 - i,
    {
        proof {
            lemma_mul_bound(x[i as int] as int, QMF_TAPS[2 * i + phase] as int, 32768, 3876);
            assert((i as int + 1) * 32768 * 3876 == (i as int) * 32768 * 3876 + 32768 * 3876)
                by (nonlinear_arith);
        }
        acc = acc + (x[i] as i64) * (QMF_TAPS[2 * i + phase] as i64);
        i = i + 1;
    }
    acc
}

/// The QMF output saturation to the 15-bit range of Table 9.
fn clamp_qmf(v: i64) -> (r: i32)
    ensures
        r == limit_spec(v as int),
{
    if v > 16383 {
        16383
    } else if v < -16384 {
        -16384
    } else {
        v as i32
    }
}

/// Saturation to the 16-bit PCM range.
fn clamp_pcm16(v: i64) -> (r: i32)
    ensures
        r == clamp16(v as int),
        in16(r as int),
{
    if v > 32767 {
        32767
    } else if v < -32768 {
        -32768
    } else {
        v as i32
    }
}

proof fn lemma_shr11(x: i64)
    ensures
        (x >> 11) as int == x as int / 2048,
{
    assert((x >> 11) as int == x as int / 2048) by (bit_vector);
}

proof fn lemma_shr12(x: i64)
    ensures
        (x >> 12) as int == x as int / 4096,
{
    assert((x >> 12) as int == x as int / 4096) by (bit_vector);
}

/// Receive QMF state: the 12-deep delay lines of the difference
/// (`RECA`) and the sum (`RECB`) of the sub-band signals (clause 5.2.2).
#[derive(Debug, Clone)]
pub struct ReceiveQmf {
    pub(crate) xd: [i32; 12],
    pub(crate) xs: [i32; 12],
}

impl ReceiveQmf {
    pub closed spec fn wf(self) -> bool {
        line_in16(self.xd) && line_in16(self.xs)
    }

    /// The receive QMF after a reset: both delay lines zero.
    pub closed spec fn zero_spec() -> ReceiveQmf {
        ReceiveQmf { xd: [0i32, 0, 0, 0, 0, 0, 0, 0, 0, 0, 0, 0], xs: [0i32, 0, 0, 0, 0, 0, 0, 0, 0, 0, 0, 0] }
    }

    /// One receive QMF step on `(R_L, R_H)`: the next state and the two
    /// 16 kHz output samples `xout(j) = 2 Σ H_2i · xd(i)`,
    /// `xout(j+1) = 2 Σ H_2i+1 · xs(i)`, each limited to 15 bits.
    pub closed spec fn step_spec(self, rl: int, rh: int) -> (ReceiveQmf, (int, int)) {
        let xd = push_line(self.xd, clamp16(rl - rh) as i32);
        let xs = push_line(self.xs, clamp16(rl + rh) as i32);
        (
            ReceiveQmf { xd, xs },
            (limit_spec(tap_sum(xd, 0, 12) / 4096), limit_spec(tap_sum(xs, 1, 12) / 4096)),
        )
    }

    /// The same step in the 16-bit output convention: the accumulators
    /// normalised one bit less (`>> 11`) and saturated to 16 bits, so
    /// each output is within one LSB of twice the 15-bit output.
    pub closed spec fn step_pcm16_spec(self, rl: int, rh: int) -> (ReceiveQmf, (int, int)) {
        let xd = push_line(self.xd, clamp16(rl - rh) as i32);
        let xs = push_line(self.xs, clamp16(rl + rh) as i32);
        (
            ReceiveQmf { xd, xs },
            (clamp16(tap_sum(xd, 0, 12) / 2048), clamp16(tap_sum(xs, 1, 12) / 2048)),
        )
    }

    pub fn new() -> (r: Self)
        ensures
            r.wf(),
            r == Self::zero_spec(),
    {
        ReceiveQmf { xd: [0, 0, 0, 0, 0, 0, 0, 0, 0, 0, 0, 0], xs: [0, 0, 0, 0, 0, 0, 0, 0, 0, 0, 0, 0] }
    }

    pub(crate) fn reset(&mut self)
        ensures
            final(self).wf(),
            *final(self) == Self::zero_spec(),
    {
        self.xd = [0, 0, 0, 0, 0, 0, 0, 0, 0, 0, 0, 0];
        self.xs = [0, 0, 0, 0, 0, 0, 0, 0, 0, 0, 0, 0];
    }

    /// Process one `(R_L, R_H)` pair into the two 16 kHz samples.
    pub fn step(&mut self, rl: i32, rh: i32) -> (r: (i32, i32))
        requires
            old(self).wf(),
        ensures
            final(self).wf(),
            (*final(self), (r.0 as int, r.1 as int)) == old(self).step_spec(rl as int, rh as int),
    {
        let xd_new: i32 = sub_sat(rl, rh);
        let xs_new: i32 = add_sat(rl, rh);
        let x = &self.xd;
        self.xd = [xd_new, x[0], x[1], x[2], x[3], x[4], x[5], x[6], x[7], x[8], x[9], x[10]];
        let y = &self.xs;
        self.xs = [xs_new, y[0], y[1], y[2], y[3], y[4], y[5], y[6], y[7], y[8], y[9], y[10]];
        let wd_c: i64 = branch_sum(&self.xd, 0);
        let wd_d: i64 = branch_sum(&self.xs, 1);
        proof {
            lemma_shr12(wd_c);
            lemma_shr12(wd_d);
        }
        let xout1: i32 = clamp_qmf(wd_c >> 12);
        let xout2: i32 = clamp_qmf(wd_d >> 12);
        (xout1, xout2)
    }

    /// Process one `(R_L, R_H)` pair into two 16-bit PCM samples (the
    /// 16-bit output convention of [`Self::step_pcm16_spec`]).
    pub fn step_pcm16(&mut self, rl: i32, rh: i32) -> (r: (i16, i16))
        requires
            old(self).wf(),
        ensures
            final(self).wf(),
            (*final(self), (r.0 as int, r.1 as int)) == old(self).step_pcm16_spec(rl as int, rh as int),
    {
        let xd_new: i32 = sub_sat(rl, rh);
        let xs_new: i32 = add_sat(rl, rh);
        let x = &self.xd;
        self.xd = [xd_new, x[0], x[1], x[2], x[3], x[4], x[5], x[6], x[7], x[8], x[9], x[10]];
        let y = &self.xs;
        self.xs = [xs_new, y[0], y[1], y[2], y[3], y[4], y[5], y[6], y[7], y[8], y[9], y[10]];
        let wd_c: i64 = branch_sum(&self.xd, 0);
        let wd_d: i64 = branch_sum(&self.xs, 1);
        proof {
            lemma_shr11(wd_c);
            lemma_shr11(wd_d);
        }
        ((clamp_pcm16(wd_c >> 11)) as i16, (clamp_pcm16(wd_d >> 11)) as i16)
    }
}

} // verus!

verus! {

/// Full G.722 SB-ADPCM decoder.
///
/// Consumes 64 kbit/s octets in the multiplexer layout of clause 1.4.4
/// (`IH1 IH2 IL1 IL2 IL3 IL4 IL5 IL6`, `IH1` the MSB). Each octet drives
/// one 8 kHz sub-band pair; the receive QMF emits two 16 kHz samples per
/// octet.
#[derive(Debug, Clone)]
pub struct Decoder {
    lower: LowerDecoderState,
    higher: HigherDecoderState,
    qmf: ReceiveQmf,
    mode: Mode,
}

impl Decoder {
    /// The decoder's internal ranges hold.
    pub closed spec fn wf(self) -> bool {
        self.lower.wf() && self.higher.wf() && self.qmf.wf()
    }

    /// The current bit-rate mode.
    pub closed spec fn mode_spec(self) -> Mode {
        self.mode
    }

    /// The lower sub-band predictor and scale-factor state.
    pub closed spec fn lower_state(self) -> SubBandState {
        self.lower.s
    }

    /// The higher sub-band predictor and scale-factor state.
    pub closed spec fn higher_state(self) -> SubBandState {
        self.higher.s
    }

    /// A decoder at the reset condition in the given mode.
    pub closed spec fn fresh_spec(mode: Mode) -> Decoder {
        Decoder {
            lower: LowerDecoderState { s: SubBandState::new_lower_spec() },
            higher: HigherDecoderState { s: SubBandState::new_higher_spec() },
            qmf: ReceiveQmf::zero_spec(),
            mode,
        }
    }

    /// The same decoder in another mode (state preserved).
    pub closed spec fn with_mode_spec(self, mode: Mode) -> Decoder {
        Decoder { mode, ..self }
    }

    /// The two sub-band ADPCM decoders on `(I_LR, I_H)` with the receive
    /// QMF bypassed: the next decoder and `(R_L, R_H)`.
    pub closed spec fn subband_spec(self, ilr: int, ih: int) -> (Decoder, (i32, i32)) {
        (
            Decoder {
                lower: LowerDecoderState { s: lower_adapt_spec(self.lower.s, ilr / 4) },
                higher: HigherDecoderState { s: higher_adapt_spec(self.higher.s, ih) },
                ..self
            },
            (
                lower_output_spec(self.lower.s, ilr, self.mode) as i32,
                higher_output_spec(self.higher.s, ih) as i32,
            ),
        )
    }

    /// The receive QMF alone on `(R_L, R_H)`: the next decoder and the two
    /// 16 kHz samples.
    pub closed spec fn synthesis_spec(self, rl: int, rh: int) -> (Decoder, (i32, i32)) {
        let (q, (x1, x2)) = self.qmf.step_spec(rl, rh);
        (Decoder { qmf: q, ..self }, (x1 as i32, x2 as i32))
    }

    /// One octet through the whole receive path: the next decoder and the
    /// two 16 kHz output samples.
    pub closed spec fn octet_spec(self, octet: u8) -> (Decoder, (i32, i32)) {
        let (d, (rl, rh)) = self.subband_spec(octet as int % 64, octet as int / 64);
        let (q, (x1, x2)) = self.qmf.step_spec(rl as int, rh as int);
        (Decoder { qmf: q, ..d }, (x1 as i32, x2 as i32))
    }

    /// A whole octet stream: the final decoder and the 16 kHz output,
    /// two samples per octet in order.
    pub closed spec fn decode_spec(self, input: Seq<u8>) -> (Decoder, Seq<i32>)
        decreases input.len(),
    {
        if input.len() == 0 {
            (self, Seq::<i32>::empty())
        } else {
            let (d, out) = self.decode_spec(input.drop_last());
            let (d2, (a, b)) = d.octet_spec(input.last());
            (d2, out + seq![a, b])
        }
    }

    /// The two sub-band decoders on one octet, the lower one with the
    /// prediction `pred` in place of its own when one is given: the next
    /// decoder and `(R_L, R_H)`.
    pub closed spec fn pred_step_spec(self, octet: u8, pred: Option<(i32, i32)>) -> (Decoder, (int, int)) {
        let ilr = octet as int % 64;
        let ih = octet as int / 64;
        let sl: int = match pred {
            Some(p) => p.0 as int,
            None => self.lower.s.predicted(),
        };
        let szl: int = match pred {
            Some(p) => p.1 as int,
            None => self.lower.s.zero_output(),
        };
        (
            Decoder {
                lower: LowerDecoderState { s: lower_adapt_pred_spec(self.lower.s, ilr / 4, sl, szl) },
                higher: HigherDecoderState { s: higher_adapt_spec(self.higher.s, ih) },
                ..self
            },
            (
                limit_spec(clamp16(sl + invqbl_spec(ilr, self.lower.s.detl as int, self.mode))),
                higher_output_spec(self.higher.s, ih),
            ),
        )
    }

    /// The receive QMF alone in the 16-bit output convention.
    pub closed spec fn synthesis_pcm16_spec(self, rl: int, rh: int) -> (Decoder, (int, int)) {
        let (q, out) = self.qmf.step_pcm16_spec(rl, rh);
        (Decoder { qmf: q, ..self }, out)
    }

    /// One octet through the receive path in the 16-bit output
    /// convention.
    pub open spec fn octet_pcm16_spec(self, octet: u8) -> (Decoder, (int, int)) {
        let (d, (rl, rh)) = self.pred_step_spec(octet, None);
        d.synthesis_pcm16_spec(rl, rh)
    }

    /// A whole octet stream in the 16-bit output convention.
    pub open spec fn decode_pcm16_spec(self, input: Seq<u8>) -> (Decoder, Seq<i16>)
        decreases input.len(),
    {
        if input.len() == 0 {
            (self, Seq::<i16>::empty())
        } else {
            let (d, out) = self.decode_pcm16_spec(input.drop_last());
            let (d2, (a, b)) = d.octet_pcm16_spec(input.last());
            (d2, out + seq![a as i16, b as i16])
        }
    }

    /// The concealment hand-over of the lower sub-band: the quantized
    /// differences cleared, the partially reconstructed signal set to
    /// `(p1, p1, p2)`, the two newest reconstructed samples to `r1`, and
    /// with `reset_scale` the scale factors back to their minimum.
    pub closed spec fn conceal_lower_spec(self, p1: i32, p2: i32, r1: i32, reset_scale: bool) -> Decoder {
        let s = self.lower.s;
        let s1 = SubBandState {
            dlt: [0i32, 0, 0, 0, 0, 0, 0],
            plt: [p1, p1, p2],
            rlt: [r1, r1, s.rlt[2]],
            ..s
        };
        let s2 = if reset_scale {
            SubBandState { detl: 32, nbl: 0, ..s1 }
        } else {
            s1
        };
        Decoder { lower: LowerDecoderState { s: s2 }, ..self }
    }

    /// The concealment hand-over of the higher sub-band: the logarithmic
    /// scale factor halved and the linear one recomputed from it, or with
    /// `reset` both back to their minimum.
    pub closed spec fn conceal_higher_spec(self, reset: bool) -> Decoder {
        let s = self.higher.s;
        let nb = s.nbl / 2;
        let s2 = if reset {
            SubBandState { nbl: 0, detl: 8, ..s }
        } else {
            SubBandState { nbl: nb as i32, detl: crate::predictor::linear_scale_spec(nb as i32, 10), ..s }
        };
        Decoder { higher: HigherDecoderState { s: s2 }, ..self }
    }
}

impl SubBandState {
    /// The lower sub-band state at the reset condition.
    pub open spec fn new_lower_spec() -> SubBandState {
        SubBandState {
            dlt: [0i32, 0, 0, 0, 0, 0, 0],
            plt: [0i32, 0, 0],
            rlt: [0i32, 0, 0],
            al1: 0,
            al2: 0,
            bl: [0i32, 0, 0, 0, 0, 0, 0],
            nbl: 0,
            detl: 32,
            nbpl_cap: 18432,
            detl_reset: 32,
        }
    }

    /// The higher sub-band state at the reset condition.
    pub open spec fn new_higher_spec() -> SubBandState {
        SubBandState {
            dlt: [0i32, 0, 0, 0, 0, 0, 0],
            plt: [0i32, 0, 0],
            rlt: [0i32, 0, 0],
            al1: 0,
            al2: 0,
            bl: [0i32, 0, 0, 0, 0, 0, 0],
            nbl: 0,
            detl: 8,
            nbpl_cap: 22528,
            detl_reset: 8,
        }
    }
}

/// The code-word fields of an octet, bit by bit.
proof fn lemma_code_fields()
    by (bit_vector)
    ensures
        forall|o: u8| #[trigger] ((o >> 6u8) & 3u8) == o / 64,
        forall|o: u8| #[trigger] (o & 63u8) == o % 64,
        forall|o: u8| #[trigger] (o & 3u8) == o % 4,
{
}

/// Every reachable decoder state keeps its ranges: one octet step keeps
/// the decoder well formed and its outputs within the 15-bit range.
proof fn lemma_octet_step_ranges(d: Decoder, octet: u8)
    requires
        d.wf(),
    ensures
        d.octet_spec(octet).0.wf(),
        d.octet_spec(octet).0.mode == d.mode,
        -16384 <= d.octet_spec(octet).1.0 <= 16383,
        -16384 <= d.octet_spec(octet).1.1 <= 16383,
{
    lemma_adapt_keeps_wf(d.lower.s, d.higher.s, octet as int % 64, octet as int / 64);
}

/// One QMF-bypassed step on any code-words `(I_LR, I_H)` keeps the
/// decoder well formed and in its mode, with both outputs in the 15-bit
/// range.
pub proof fn lemma_subband_step_ranges(d: Decoder, ilr: int, ih: int)
    requires
        d.wf(),
        0 <= ilr < 64,
        0 <= ih < 4,
    ensures
        d.subband_spec(ilr, ih).0.wf(),
        d.subband_spec(ilr, ih).0.mode_spec() == d.mode_spec(),
        -16384 <= d.subband_spec(ilr, ih).1.0 <= 16383,
        -16384 <= d.subband_spec(ilr, ih).1.1 <= 16383,
{
    lemma_adapt_keeps_wf(d.lower.s, d.higher.s, ilr, ih);
}

/// The two adaptation steps keep the sub-band states well formed.
proof fn lemma_adapt_keeps_wf(lo: SubBandState, hi: SubBandState, ilr: int, ih: int)
    requires
        lo.wf(),
        lo.is_lower(),
        hi.wf(),
        hi.is_higher(),
        0 <= ilr < 64,
        0 <= ih < 4,
    ensures
        lower_adapt_spec(lo, ilr / 4).wf(),
        lower_adapt_spec(lo, ilr / 4).is_lower(),
        higher_adapt_spec(hi, ih).wf(),
        higher_adapt_spec(hi, ih).is_higher(),
{
    lemma_lower_adapt_wf(lo, ilr / 4);
    lemma_higher_adapt_wf(hi, ih);
}

} // verus!

verus! {

impl Decoder {
    /// Construct a decoder operating in the requested bit-rate mode.
    pub fn new(mode: Mode) -> (r: Self)
        ensures
            r.wf(),
            r == Self::fresh_spec(mode),
    {
        Decoder {
            lower: LowerDecoderState::new(),
            higher: HigherDecoderState::new(),
            qmf: ReceiveQmf::new(),
            mode,
        }
    }

    /// Reset all decoder state to the post-reset condition (clauses
    /// 6.2.1.3 / 6.2.2.3 plus QMF delay-line zeroing); the mode is kept.
    pub fn reset(&mut self)
        requires
            old(self).wf(),
        ensures
            final(self).wf(),
            *final(self) == Self::fresh_spec(old(self).mode_spec()),
    {
        self.lower.reset();
        self.higher.reset();
        self.qmf.reset();
    }

    /// Decode one octet into two 16 kHz samples, each within the 15-bit
    /// output range `-16384 ..= 16383`.
    pub fn decode_octet(&mut self, octet: u8) -> (r: (i32, i32))
        requires
            old(self).wf(),
        ensures
            final(self).wf(),
            (*final(self), r) == old(self).octet_spec(octet),
            -16384 <= r.0 <= 16383,
            -16384 <= r.1 <= 16383,
    {
        proof {
            lemma_code_fields();
            assert((octet >> 6u8) & 3u8 == octet / 64);
            assert(octet & 63u8 == octet % 64);
        }
        let ih: u32 = ((octet >> 6) & 0x3) as u32;
        let ilr: u32 = (octet & 0x3F) as u32;
        let rl: i32 = self.lower.step(ilr, self.mode);
        let rh: i32 = self.higher.step(ih);
        self.qmf.step(rl, rh)
    }

    /// Drive the two sub-band ADPCM decoders directly with the code-words
    /// `(I_LR, I_H)` and return `(R_L, R_H)` without the receive QMF
    /// (the QMF-bypass entry point of Configuration 2, Appendix II).
    /// Only the six LSBs of `i_lr` and the two LSBs of `i_h` are used.
    pub fn decode_subband_pair(&mut self, i_lr: u8, i_h: u8) -> (r: (i32, i32))
        requires
            old(self).wf(),
        ensures
            final(self).wf(),
            (*final(self), r) == old(self).subband_spec(i_lr as int % 64, i_h as int % 4),
            -16384 <= r.0 <= 16383,
            -16384 <= r.1 <= 16383,
    {
        proof {
            lemma_code_fields();
            assert(i_lr & 63u8 == i_lr % 64);
            assert(i_h & 3u8 == i_h % 4);
        }
        let rl: i32 = self.lower.step((i_lr & 0x3F) as u32, self.mode);
        let rh: i32 = self.higher.step((i_h & 0x3) as u32);
        (rl, rh)
    }

    /// Run only the receive QMF on one reconstructed sub-band pair
    /// `(R_L, R_H)` (eqs 4-3 / 4-4), without ADPCM decoding.
    pub fn synthesis_qmf_step(&mut self, rl: i32, rh: i32) -> (r: (i32, i32))
        requires
            old(self).wf(),
        ensures
            final(self).wf(),
            (*final(self), r) == old(self).synthesis_spec(rl as int, rh as int),
    {
        self.qmf.step(rl, rh)
    }

    /// Decode a slice of octets, writing two samples per octet into
    /// `out`; the rest of `out` is left as it was.
    pub fn decode_into(&mut self, input: &[u8], out: &mut [i32])
        requires
            old(self).wf(),
            old(out)@.len() >= 2 * input@.len(),
        ensures
            final(self).wf(),
            *final(self) == old(self).decode_spec(input@).0,
            final(out)@.len() == old(out)@.len(),
            final(out)@.subrange(0, 2 * input@.len() as int) == old(self).decode_spec(input@).1,
            final(out)@.subrange(2 * input@.len() as int, old(out)@.len() as int)
                == old(out)@.subrange(2 * input@.len() as int, old(out)@.len() as int),
    {
        let ghost d0 = *self;
        let ghost out0 = out@;
        let n: usize = input.len();
        let mut i: usize = 0;
        while i < n
            invariant
                n == input@.len(),
                i <= n,
                out@.len() == out0.len(),
                out0.len() >= 2 * n,
                out.len() == out0.len(),
                self.wf(),
                *self == d0.decode_spec(input@.subrange(0, i as int)).0,
                out@.subrange(0, 2 * i as int) == d0.decode_spec(input@.subrange(0, i as int)).1,
                out@.subrange(2 * n as int, out0.len() as int) == out0.subrange(
                    2 * n as int,
                    out0.len() as int,
                ),
                d0.decode_spec(input@.subrange(0, i as int)).1.len() == 2 * i,
            decreases n - i,
        {
            let ghost pre = input@.subrange(0, i as int);
            let ghost pre1 = input@.subrange(0, i as int + 1);
            proof {
                assert(pre1.drop_last() =~= pre);
                assert(pre1.last() == input@[i as int]);
            }
            let (a, b) = self.decode_octet(input[i]);
            let ghost before = out@;
            out[2 * i] = a;
            out[2 * i + 1] = b;
            proof {
                assert(out@.subrange(0, 2 * i as int + 2) =~= before.subrange(0, 2 * i as int)
                    + seq![a, b]);
                assert(out@.subrange(2 * n as int, out0.len() as int) =~= before.subrange(
                    2 * n as int,
                    out0.len() as int,
                ));
            }
            i = i + 1;
        }
        proof {
            assert(input@.subrange(0, n as int) =~= input@);
        }
    }

    /// Decode a slice of octets into a new vector of 16 kHz samples, two
    /// per octet.
    pub fn decode(&mut self, input: &[u8]) -> (r: Vec<i32>)
        requires
            old(self).wf(),
        ensures
            final(self).wf(),
            (*final(self), r@) == old(self).decode_spec(input@),
            r@.len() == 2 * input@.len(),
    {
        let mut out: Vec<i32> = Vec::new();
        let n: usize = input.len();
        let mut k: usize = 0;
        while k < n
            invariant
                k <= n,
                n == input@.len(),
                out@.len() == 2 * k,
                forall|j: int| 0 <= j < 2 * k ==> out@[j] == 0,
            decreases n - k,
        {
            out.push(0);
            out.push(0);
            k = k + 1;
        }
        self.decode_into(input, out.as_mut_slice());
        proof {
            lemma_decode_spec_len(*old(self), input@);
            assert(out@.subrange(0, 2 * input@.len() as int) =~= out@);
        }
        out
    }

    /// The current bit-rate mode.
    pub fn mode(&self) -> (r: Mode)
        ensures
            r == self.mode_spec(),
    {
        self.mode
    }

    /// Switch the bit-rate mode; the spec permits switching at any octet
    /// boundary (clause 1.3), and the decoder state is kept.
    pub fn set_mode(&mut self, mode: Mode)
        requires
            old(self).wf(),
        ensures
            final(self).wf(),
            *final(self) == old(self).with_mode_spec(mode),
    {
        self.mode = mode;
    }

    /// The two sub-band decoders on one octet, the lower one with the
    /// caller's prediction `pred` when one is given; returns `(R_L, R_H)`.
    pub fn subband_step_pred(&mut self, octet: u8, pred: Option<(i32, i32)>) -> (r: (i32, i32))
        requires
            old(self).wf(),
            pred matches Some(p) ==> in16(p.0 as int) && in16(p.1 as int),
        ensures
            final(self).wf(),
            (*final(self), (r.0 as int, r.1 as int)) == old(self).pred_step_spec(octet, pred),
            -16384 <= r.0 <= 16383,
            -16384 <= r.1 <= 16383,
    {
        proof {
            lemma_code_fields();
            assert((octet >> 6u8) & 3u8 == octet / 64);
            assert(octet & 63u8 == octet % 64);
        }
        let ih: u32 = ((octet >> 6) & 0x3) as u32;
        let ilr: u32 = (octet & 0x3F) as u32;
        let rl: i32 = match pred {
            Some(p) => self.lower.step_pred(ilr, self.mode, p.0, p.1),
            None => {
                let (sl, szl) = self.lower.s.predict();
                self.lower.step_pred(ilr, self.mode, sl, szl)
            },
        };
        let rh: i32 = self.higher.step(ih);
        (rl, rh)
    }

    /// Run the receive QMF alone on `(R_L, R_H)` in the 16-bit output
    /// convention.
    pub fn synthesis_pcm16(&mut self, rl: i32, rh: i32) -> (r: (i16, i16))
        requires
            old(self).wf(),
        ensures
            final(self).wf(),
            (*final(self), (r.0 as int, r.1 as int)) == old(self).synthesis_pcm16_spec(rl as int, rh as int),
    {
        self.qmf.step_pcm16(rl, rh)
    }

    /// Decode a slice of octets into 16-bit PCM, two samples per octet:
    /// the same ADPCM decoding with the receive QMF in the 16-bit output
    /// convention (each sample within one LSB of twice the 15-bit one).
    pub fn decode_pcm16(&mut self, input: &[u8]) -> (r: Vec<i16>)
        requires
            old(self).wf(),
        ensures
            final(self).wf(),
            (*final(self), r@) == old(self).decode_pcm16_spec(input@),
            r@.len() == 2 * input@.len(),
    {
        let mut out: Vec<i16> = Vec::new();
        let n: usize = input.len();
        let mut k: usize = 0;
        while k < n
            invariant
                k <= n,
                n == input@.len(),
                self.wf(),
                (*self, out@) == old(self).decode_pcm16_spec(input@.subrange(0, k as int)),
                out@.len() == 2 * k,
            decreases n - k,
        {
            let (rl, rh) = self.subband_step_pred(input[k], None);
            let (a, b) = self.synthesis_pcm16(rl, rh);
            proof {
                let pre = input@.subrange(0, k as int + 1);
                assert(pre.drop_last() =~= input@.subrange(0, k as int));
                assert(pre.last() == input@[k as int]);
            }
            out.push(a);
            out.push(b);
            proof {
                let (d0, o0) = old(self).decode_pcm16_spec(input@.subrange(0, k as int));
                assert(out@ =~= o0 + seq![a, b]);
            }
            k = k + 1;
        }
        proof {
            assert(input@.subrange(0, n as int) =~= input@);
        }
        out
    }

    /// The concealment hand-over of the lower sub-band (see
    /// [`Self::conceal_lower_spec`]).
    pub fn conceal_lower(&mut self, p1: i32, p2: i32, r1: i32, reset_scale: bool)
        requires
            old(self).wf(),
            in16(p1 as int),
            in16(p2 as int),
            in16(r1 as int),
        ensures
            final(self).wf(),
            *final(self) == old(self).conceal_lower_spec(p1, p2, r1, reset_scale),
            final(self).mode_spec() == old(self).mode_spec(),
    {
        self.lower.s.dlt = [0, 0, 0, 0, 0, 0, 0];
        let r2: i32 = self.lower.s.rlt[2];
        self.lower.s.plt = [p1, p1, p2];
        self.lower.s.rlt = [r1, r1, r2];
        if reset_scale {
            self.lower.s.detl = 32;
            self.lower.s.nbl = 0;
        }
    }

    /// The concealment hand-over of the higher sub-band (see
    /// [`Self::conceal_higher_spec`]).
    pub fn conceal_higher(&mut self, reset: bool)
        requires
            old(self).wf(),
        ensures
            final(self).wf(),
            *final(self) == old(self).conceal_higher_spec(reset),
            final(self).mode_spec() == old(self).mode_spec(),
    {
        let nb0: i32 = self.higher.s.nbl;
        let nb: i32 = nb0 >> 1;
        proof {
            assert(nb0 >= 0 ==> nb0 >> 1 == nb0 / 2) by (bit_vector);
        }
        let det: i32 = crate::predictor::linear_scale_method2(nb, 10);
        self.higher.s.nbl = nb;
        self.higher.s.detl = det;
        if reset {
            self.higher.s.nbl = 0;
            self.higher.s.detl = 8;
        }
    }

    /// The lower sub-band's logarithmic scale factor.
    pub fn lower_log_scale_factor(&self) -> (r: i32)
        ensures
            r == self.lower_state().nbl,
    {
        self.lower.s.nbl
    }

    /// The higher sub-band's logarithmic scale factor.
    pub fn higher_log_scale_factor(&self) -> (r: i32)
        ensures
            r == self.higher_state().nbl,
    {
        self.higher.s.nbl
    }
}

impl Default for Decoder {
    /// A Mode 1 decoder at the reset condition.
    fn default() -> (r: Self)
        ensures
            r == Self::fresh_spec(Mode::Mode1),
    {
        Self::new(Mode::Mode1)
    }
}

/// A decoded stream has two samples per octet.
pub proof fn lemma_decode_spec_len(d: Decoder, input: Seq<u8>)
    ensures
        d.decode_spec(input).1.len() == 2 * input.len(),
    decreases input.len(),
{
    if input.len() > 0 {
        lemma_decode_spec_len(d, input.drop_last());
    }
}

} // verus!

verus! {

/// Decoding keeps the decoder well formed and its mode, and every output
/// sample lies in the 15-bit range `-16384 ..= 16383` of Table 9, for any
/// octet stream.
pub proof fn lemma_decode_stream_ranges(d: Decoder, input: Seq<u8>)
    requires
        d.wf(),
    ensures
        d.decode_spec(input).0.wf(),
        d.decode_spec(input).0.mode_spec() == d.mode_spec(),
        forall|i: int|
            0 <= i < d.decode_spec(input).1.len() ==> -16384 <= #[trigger] d.decode_spec(
                input,
            ).1[i] <= 16383,
    decreases input.len(),
{
    if input.len() > 0 {
        lemma_decode_stream_ranges(d, input.drop_last());
        let (d1, out1) = d.decode_spec(input.drop_last());
        lemma_octet_step_ranges(d1, input.last());
        let (d2, (a, b)) = d1.octet_spec(input.last());
        let out = out1 + seq![a, b];
        assert forall|i: int| 0 <= i < out.len() implies -16384 <= #[trigger] out[i] <= 16383 by {
            if i < out1.len() {
                assert(out[i] == out1[i]);
            }
        }
    }
}

/// Decoding a concatenated stream is decoding its first part and then,
/// from the state reached, its second part: the output is the
/// concatenation of the two outputs.
pub proof fn lemma_decode_concat(d: Decoder, a: Seq<u8>, b: Seq<u8>)
    ensures
        d.decode_spec(a + b) == ({
            let (d1, o1) = d.decode_spec(a);
            let (d2, o2) = d1.decode_spec(b);
            (d2, o1 + o2)
        }),
    decreases b.len(),
{
    if b.len() == 0 {
        assert(a + b =~= a);
        let (d1, o1) = d.decode_spec(a);
        assert(o1 + Seq::<i32>::empty() =~= o1);
    } else {
        assert((a + b).drop_last() =~= a + b.drop_last());
        assert((a + b).last() == b.last());
        lemma_decode_concat(d, a, b.drop_last());
        let (d1, o1) = d.decode_spec(a);
        let (dm, om) = d1.decode_spec(b.drop_last());
        let (d2, (x, y)) = dm.octet_spec(b.last());
        assert(o1 + om + seq![x, y] =~= o1 + (om + seq![x, y]));
    }
}

/// One QMF-bypassed step updates the two sub-band states by the shared
/// adaptation of the 4 MSBs of `I_LR` and of `I_H`, and keeps the mode.
pub proof fn lemma_decoder_subband_states(d: Decoder, ilr: int, ih: int)
    ensures
        d.subband_spec(ilr, ih).0.lower_state() == lower_adapt_spec(d.lower_state(), ilr / 4),
        d.subband_spec(ilr, ih).0.higher_state() == higher_adapt_spec(d.higher_state(), ih),
        d.subband_spec(ilr, ih).0.mode_spec() == d.mode_spec(),
        d.subband_spec(ilr, ih).1.0 == lower_output_spec(d.lower_state(), ilr, d.mode_spec()) as i32,
        d.subband_spec(ilr, ih).1.1 == higher_output_spec(d.higher_state(), ih) as i32,
{
}

/// One full octet step updates the two sub-band states exactly as the
/// QMF-bypassed step on the octet's two code-words does.
pub proof fn lemma_decoder_octet_states(d: Decoder, octet: u8)
    ensures
        d.octet_spec(octet).0.lower_state() == d.subband_spec(octet as int % 64, octet as int / 64).0.lower_state(),
        d.octet_spec(octet).0.higher_state() == d.subband_spec(octet as int % 64, octet as int / 64).0.higher_state(),
        d.octet_spec(octet).0.mode_spec() == d.mode_spec(),
{
}

/// The mode only selects how many bits of `I_LR` reach the lower
/// sub-band output: both predictor adaptations and the higher sub-band
/// output `R_H` are the same in every mode (clause 1.3), and in Mode 3
/// the two LSBs of `I_LR` play no part at all.
pub proof fn lemma_mode_affects_only_lower_output(d: Decoder, m1: Mode, m2: Mode, ilr: int, ih: int)
    requires
        0 <= ilr < 64,
    ensures
        d.with_mode_spec(m1).subband_spec(ilr, ih).0.lower_state()
            == d.with_mode_spec(m2).subband_spec(ilr, ih).0.lower_state(),
        d.with_mode_spec(m1).subband_spec(ilr, ih).0.higher_state()
            == d.with_mode_spec(m2).subband_spec(ilr, ih).0.higher_state(),
        d.with_mode_spec(m1).subband_spec(ilr, ih).1.1 == d.with_mode_spec(m2).subband_spec(
            ilr,
            ih,
        ).1.1,
        d.with_mode_spec(Mode::Mode3).subband_spec(ilr, ih).1 == d.with_mode_spec(
            Mode::Mode3,
        ).subband_spec(ilr - ilr % 4, ih).1,
        d.with_mode_spec(Mode::Mode2).subband_spec(ilr, ih).1 == d.with_mode_spec(
            Mode::Mode2,
        ).subband_spec(ilr - ilr % 2, ih).1,
{
    assert((ilr - ilr % 4) / 4 == ilr / 4);
    assert((ilr - ilr % 2) / 2 == ilr / 2);
}

} // verus!

verus! {

/// A fresh decoder is well formed, in the requested mode, with both
/// sub-band states at the reset condition.
pub proof fn lemma_fresh_decoder(m: Mode)
    ensures
        Decoder::fresh_spec(m).wf(),
        Decoder::fresh_spec(m).mode_spec() == m,
        Decoder::fresh_spec(m).lower_state() == SubBandState::new_lower_spec(),
        Decoder::fresh_spec(m).higher_state() == SubBandState::new_higher_spec(),
{
    assert(SubBandState::new_lower_spec().wf());
    assert(SubBandState::new_higher_spec().wf());
}

} // verus!

verus! {

/// Switching the mode away and back restores the decoder exactly: the
/// predictor, scale-factor and QMF state survive a mode switch.
pub proof fn lemma_set_mode_back(d: Decoder, m: Mode)
    ensures
        d.with_mode_spec(m).mode_spec() == m,
        d.with_mode_spec(m).with_mode_spec(d.mode_spec()) == d,
        d.with_mode_spec(m).lower_state() == d.lower_state(),
        d.with_mode_spec(m).higher_state() == d.higher_state(),
{
}

/// Decoding one octet through `decode_octet` is decoding the one-octet
/// stream: the same two samples and the same final decoder.
#[verifier::rlimit(50)]
pub proof fn lemma_decode_one_octet(d: Decoder, octet: u8)
    ensures
        d.decode_spec(seq![octet]).0 == d.octet_spec(octet).0,
        d.decode_spec(seq![octet]).1 == seq![d.octet_spec(octet).1.0, d.octet_spec(octet).1.1],
{
    let s = seq![octet];
    assert(s.drop_last() =~= Seq::<u8>::empty());
    assert(d.decode_spec(s.drop_last()) == (d, Seq::<i32>::empty()));
    let o = d.octet_spec(octet);
    assert(Seq::<i32>::empty() + seq![o.1.0, o.1.1] =~= seq![o.1.0, o.1.1]);
}

} // verus!
