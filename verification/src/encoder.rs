//! G.722 SB-ADPCM encoder (transmit path, clause 3).
//!
//! * `TransmitQmf` — the 24-tap analysis QMF (clause 3.1, eqs 3-1 to
//!   3-4) splitting the 16 kHz input into the two 8 kHz sub-bands.
//! * `LowerEncoderState` — the 60-level forward quantizer QUANTL
//!   (clause 6.2.1.1) with the embedded local decoder of the lower
//!   sub-band.
//! * `HigherEncoderState` — the 4-level forward quantizer QUANTH
//!   (clause 6.2.2.1) with the local decoder of the higher sub-band.
//! * [`Encoder`] — the three together, emitting the multiplexer octet
//!   of clause 1.4.4 (`I_H` in the two MSBs, `I_L` in the six LSBs).

use vstd::prelude::*;
use crate::decoder::{lemma_decoder_octet_states, lemma_fresh_decoder, lemma_decoder_subband_states, limit_spec, tap_sum, Decoder};
use crate::mode::Mode;
use crate::predictor::{
    clamp16, higher_adapt_spec, in16, lemma_higher_adapt_wf, lemma_lower_adapt_wf,
    lemma_mul_bound, lemma_shr15, lower_adapt_spec, mul_q15, q15, sub_sat, SubBandState,
};
use crate::tables::{
    lemma_table_ranges, IHN2_FROM_MH, IHP2_FROM_MH, ILN6_FROM_ML, ILP6_FROM_ML, Q2_LEVEL_1, Q6,
    QMF_TAPS,
};

verus! {

/// The magnitude word `WD` the forward quantizers compare against their
/// decision levels: `e` itself when non-negative, `(32767 - e) & 32767`
/// (that is `-e - 1`) when negative.
pub open spec fn quant_magnitude(e: int) -> int {
    if e >= 0 {
        e
    } else {
        -e - 1
    }
}

/// QUANTL decision level `LDU(k) = (Q6(k) << 3) * DETL`.
pub open spec fn lower_level(k: int, detl: int) -> int {
    q15(Q6[k] as int * 8, detl)
}

/// QUANTL: the interval `m_L` found by walking the decision levels
/// upward from `k`, `prev` being the level of the row before. The first
/// row whose level exceeds `wd` is chosen, skipping rows whose level
/// equals the previous one (Table 14 note 2); row 30 is the "otherwise"
/// row.
pub open spec fn lower_interval(wd: int, detl: int, k: int, prev: int) -> int
    decreases 30 - k,
{
    if k > 29 || k < 1 {
        30
    } else {
        let ldu = lower_level(k, detl);
        if ldu != prev && wd < ldu {
            k
        } else {
            lower_interval(wd, detl, k + 1, ldu)
        }
    }
}

/// QUANTL: the 6-bit code-word for the difference signal `el` and the
/// scale factor `detl` (Table 16).
pub open spec fn quantize_lower_spec(el: int, detl: int) -> int {
    let m = lower_interval(quant_magnitude(el), detl, 1, 0);
    if el >= 0 {
        ILP6_FROM_ML[m] as int
    } else {
        ILN6_FROM_ML[m] as int
    }
}

/// QUANTH: the 2-bit code-word for the difference signal `eh` and the
/// scale factor `deth` (Table 20). Row 1 is excluded when its level is
/// zero.
pub open spec fn quantize_higher_spec(eh: int, deth: int) -> int {
    let ldu = q15(Q2_LEVEL_1 as int * 8, deth);
    let m: int = if ldu != 0 && quant_magnitude(eh) < ldu {
        1
    } else {
        2
    };
    if eh >= 0 {
        IHP2_FROM_MH[m] as int
    } else {
        IHN2_FROM_MH[m] as int
    }
}

/// The lower sub-band code-word the encoder emits for the input `xl`
/// from the state `s`.
pub open spec fn lower_code_spec(s: SubBandState, xl: int) -> int {
    quantize_lower_spec(clamp16(xl - s.predicted()), s.detl as int)
}

/// The higher sub-band code-word the encoder emits for the input `xh`
/// from the state `s`.
pub open spec fn higher_code_spec(s: SubBandState, xh: int) -> int {
    quantize_higher_spec(clamp16(xh - s.predicted()), s.detl as int)
}

proof fn lemma_quant_magnitude(e: i32)
    requires
        in16(e as int),
    ensures
        e >> 15 == (if e >= 0 {
            0i32
        } else {
            -1i32
        }),
        e < 0 ==> (((32767 - e) as i32) & 32767i32) as int == quant_magnitude(e as int),
        0 <= quant_magnitude(e as int) <= 32767,
{
    lemma_shr15(e);
    if e < 0 {
        assert((((32767 - e) as i32) & 32767i32) == -e - 1) by (bit_vector)
            requires
                -32768 <= e < 0,
        ;
    }
}

/// The interval search always ends on a row `1 ..= 30`.
proof fn lemma_lower_interval_range(wd: int, detl: int, k: int, prev: int)
    ensures
        1 <= lower_interval(wd, detl, k, prev) <= 30,
        1 <= k <= 30 ==> k <= lower_interval(wd, detl, k, prev),
    decreases 30 - k,
{
    if !(k > 29 || k < 1) {
        lemma_lower_interval_range(wd, detl, k + 1, lower_level(k, detl));
    }
}

impl LowerEncoderState {
    /// QUANTL (clause 6.2.1.1, Tables 14 and 16).
    pub fn quantize_lower(el: i32, detl: i32) -> (r: u8)
        requires
            in16(el as int),
            0 <= detl <= 32064,
        ensures
            r == quantize_lower_spec(el as int, detl as int),
            4 <= r <= 63,
    {
        proof {
            lemma_quant_magnitude(el);
            lemma_table_ranges();
            lemma_lower_interval_range(quant_magnitude(el as int), detl as int, 1, 0);
        }
        let sil: i32 = el >> 15;
        let wd: i32 = if sil == 0 {
            el
        } else {
            (32767 - el) & 32767
        };
        let mut mil: usize = 30;
        let mut prev_ldu: i32 = 0;
        let mut k: usize = 1;
        while k <= 29
            invariant_except_break
                1 <= k <= 30,
                mil == 30,
                lower_interval(wd as int, detl as int, k as int, prev_ldu as int) == lower_interval(
                    wd as int,
                    detl as int,
                    1,
                    0,
                ),
            invariant
                0 <= detl <= 32064,
                wd as int == quant_magnitude(el as int),
            ensures
                mil as int == lower_interval(wd as int, detl as int, 1, 0),
            decreases 30 - k,
        {
            proof {
                lemma_table_ranges();
                lemma_mul_bound(Q6[k as int] as int * 8, detl as int, 23352, 32064);
            }
            let ldu: i32 = mul_q15(Q6[k] * 8, detl);
            if ldu != prev_ldu && wd < ldu {
                mil = k;
                break;
            }
            prev_ldu = ldu;
            k = k + 1;
        }
        proof {
            lemma_table_ranges();
        }
        if sil == 0 {
            ILP6_FROM_ML[mil]
        } else {
            ILN6_FROM_ML[mil]
        }
    }
}

impl HigherEncoderState {
    /// QUANTH (clause 6.2.2.1, Tables 14 and 20).
    pub fn quantize_higher(eh: i32, deth: i32) -> (r: u8)
        requires
            in16(eh as int),
            0 <= deth <= 32064,
        ensures
            r == quantize_higher_spec(eh as int, deth as int),
            r <= 3,
    {
        proof {
            lemma_quant_magnitude(eh);
            lemma_table_ranges();
            lemma_mul_bound(Q2_LEVEL_1 as int * 8, deth as int, 4512, 32064);
        }
        let sih: i32 = eh >> 15;
        let wd: i32 = if sih == 0 {
            eh
        } else {
            (32767 - eh) & 32767
        };
        let ldu: i32 = mul_q15(Q2_LEVEL_1 * 8, deth);
        let mih: usize = if ldu != 0 && wd < ldu {
            1
        } else {
            2
        };
        if sih == 0 {
            IHP2_FROM_MH[mih]
        } else {
            IHN2_FROM_MH[mih]
        }
    }
}

} // verus!

verus! {

/// Lower sub-band encoder: QUANTL plus the local decoder (clauses 3.2,
/// 3.3, 3.4.1).
#[derive(Debug, Clone)]
pub struct LowerEncoderState {
    pub(crate) s: SubBandState,
}

impl LowerEncoderState {
    pub(crate) open spec fn wf(self) -> bool {
        self.s.wf() && self.s.is_lower()
    }

    pub(crate) fn new() -> (r: Self)
        ensures
            r.wf(),
            r.s == SubBandState::new_lower_spec(),
    {
        LowerEncoderState { s: SubBandState::new_lower() }
    }

    pub(crate) fn reset(&mut self)
        requires
            old(self).wf(),
        ensures
            final(self).wf(),
            final(self).s == old(self).s.reset_spec(),
    {
        self.s.reset();
    }

    /// One 8 kHz lower sub-band step: predict, quantize `e_L = x_L - s_L`
    /// to the 6-bit `I_L`, then adapt on the 4-bit truncated code-word
    /// exactly as the decoder does.
    pub(crate) fn step(&mut self, xl: i32) -> (r: u8)
        requires
            old(self).wf(),
        ensures
            final(self).wf(),
            r == lower_code_spec(old(self).s, xl as int),
            final(self).s == lower_adapt_spec(old(self).s, r as int / 4),
            4 <= r <= 63,
    {
        let (sl, szl) = self.s.predict();
        let el: i32 = sub_sat(xl, sl);
        let il: u8 = Self::quantize_lower(el, self.s.detl);
        self.s.lower_update(sl, szl, (il / 4) as usize);
        il
    }
}

/// Higher sub-band encoder: QUANTH plus the local decoder (clauses 3.2,
/// 3.3, 3.4.2).
#[derive(Debug, Clone)]
pub struct HigherEncoderState {
    pub(crate) s: SubBandState,
}

impl HigherEncoderState {
    pub(crate) open spec fn wf(self) -> bool {
        self.s.wf() && self.s.is_higher()
    }

    pub(crate) fn new() -> (r: Self)
        ensures
            r.wf(),
            r.s == SubBandState::new_higher_spec(),
    {
        HigherEncoderState { s: SubBandState::new_higher() }
    }

    pub(crate) fn reset(&mut self)
        requires
            old(self).wf(),
        ensures
            final(self).wf(),
            final(self).s == old(self).s.reset_spec(),
    {
        self.s.reset();
    }

    /// One 8 kHz higher sub-band step; the 2-bit code-word feeds the
    /// adaptation without truncation.
    pub(crate) fn step(&mut self, xh: i32) -> (r: u8)
        requires
            old(self).wf(),
        ensures
            final(self).wf(),
            r == higher_code_spec(old(self).s, xh as int),
            final(self).s == higher_adapt_spec(old(self).s, r as int),
            r <= 3,
    {
        let (sh, szh) = self.s.predict();
        let eh: i32 = sub_sat(xh, sh);
        let ih: u8 = Self::quantize_higher(eh, self.s.detl);
        self.s.higher_update(sh, szh, ih as usize);
        ih
    }
}

/// The transmit QMF output for the accumulators of the two polyphase
/// branches: `x_L = (x_A + x_B) >> 13`, `x_H = (x_A - x_B) >> 13`, each
/// limited to the 15-bit range after the full-width shift.
pub open spec fn analysis_out(xa: int, xb: int) -> (int, int) {
    (limit_spec((xa + xb) / 8192), limit_spec((xa - xb) / 8192))
}

/// The analysis QMF accumulator of one branch over a delay line of raw
/// 32-bit input samples stays well inside 64 bits.
fn analysis_branch(x: &[i32; 12], phase: usize) -> (r: i64)
    requires
        phase < 2,
    ensures
        r == tap_sum(*x, phase as int, 12),
        -12 * 2147483648 * 3876 <= r <= 12 * 2147483648 * 3876,
{
    proof {
        lemma_table_ranges();
    }
    let mut acc: i64 = 0;
    let mut i: usize = 0;
    while i < 12
        invariant
            phase < 2,
            i <= 12,
            acc == tap_sum(*x, phase as int, i as int),
            -(i as int) * 2147483648 * 3876 <= acc <= (i as int) * 2147483648 * 3876,
        decreases 12 - i,
    {
        proof {
            lemma_mul_bound(x[i as int] as int, QMF_TAPS[2 * i + phase] as int, 2147483648, 3876);
            assert((i as int + 1) * 2147483648 * 3876 == (i as int) * 2147483648 * 3876
                + 2147483648 * 3876) by (nonlinear_arith);
        }
        acc = acc + (x[i] as i64) * (QMF_TAPS[2 * i + phase] as i64);
        i = i + 1;
    }
    acc
}

proof fn lemma_shr13(x: i64)
    ensures
        (x >> 13) as int == x as int / 8192,
{
    assert((x >> 13) as int == x as int / 8192) by (bit_vector);
}

/// Transmit (analysis) QMF: the 12-deep even and odd input delay lines
/// consumed by sub-blocks ACCUMA / ACCUMB.
#[derive(Debug, Clone)]
pub(crate) struct TransmitQmf {
    pub(crate) even: [i32; 12],
    pub(crate) odd: [i32; 12],
}

impl TransmitQmf {
    pub(crate) open spec fn zero_spec() -> TransmitQmf {
        TransmitQmf {
            even: [0i32, 0, 0, 0, 0, 0, 0, 0, 0, 0, 0, 0],
            odd: [0i32, 0, 0, 0, 0, 0, 0, 0, 0, 0, 0, 0],
        }
    }

    /// One analysis step on the pair `(x_in(j-1), x_in(j))`: the next
    /// state and `(x_L, x_H)`.
    pub(crate) open spec fn step_spec(self, x_first: i32, x_second: i32) -> (TransmitQmf, (int, int)) {
        let even = crate::decoder::push_line(self.even, x_second);
        let odd = crate::decoder::push_line(self.odd, x_first);
        (TransmitQmf { even, odd }, analysis_out(tap_sum(even, 0, 12), tap_sum(odd, 1, 12)))
    }

    pub(crate) fn new() -> (r: Self)
        ensures
            r == Self::zero_spec(),
    {
        TransmitQmf { even: [0, 0, 0, 0, 0, 0, 0, 0, 0, 0, 0, 0], odd: [0, 0, 0, 0, 0, 0, 0, 0, 0, 0, 0, 0] }
    }

    pub(crate) fn reset(&mut self)
        ensures
            *final(self) == Self::zero_spec(),
    {
        self.even = [0, 0, 0, 0, 0, 0, 0, 0, 0, 0, 0, 0];
        self.odd = [0, 0, 0, 0, 0, 0, 0, 0, 0, 0, 0, 0];
    }

    /// Push `(x_in(j-1), x_in(j))` through the analysis bank (eqs 3-1 to
    /// 3-4) and return `(x_L, x_H)`; the sums saturate only after the
    /// full-width shift, so extreme inputs keep their sign.
    pub(crate) fn step(&mut self, x_first: i32, x_second: i32) -> (r: (i32, i32))
        ensures
            (*final(self), (r.0 as int, r.1 as int)) == old(self).step_spec(x_first, x_second),
    {
        let e = &self.even;
        self.even = [x_second, e[0], e[1], e[2], e[3], e[4], e[5], e[6], e[7], e[8], e[9], e[10]];
        let o = &self.odd;
        self.odd = [x_first, o[0], o[1], o[2], o[3], o[4], o[5], o[6], o[7], o[8], o[9], o[10]];
        let xa: i64 = analysis_branch(&self.even, 0);
        let xb: i64 = analysis_branch(&self.odd, 1);
        let sum: i64 = xa + xb;
        let diff: i64 = xa - xb;
        proof {
            lemma_shr13(sum);
            lemma_shr13(diff);
        }
        let xl: i32 = clamp_analysis(sum >> 13);
        let xh: i32 = clamp_analysis(diff >> 13);
        (xl, xh)
    }
}

/// Limit a QMF output to the 15-bit range of Table 9.
fn clamp_analysis(v: i64) -> (r: i32)
    ensures
        r == limit_spec(v as int),
{
    if v > 16383 {
        16383
    } else if v < -16384 {
        -16384
    } else {
        v as i32
    }
}

} // verus!

verus! {

/// G.722 SB-ADPCM encoder.
///
/// Consumes pairs of 16 kHz uniform-PCM samples and emits 64 kbit/s
/// octets in the multiplexer order of clause 1.4.4 (`I_H` in the two
/// MSBs, `I_L` in the six LSBs). The encoder is mode-agnostic: it always
/// emits the full 6-bit lower sub-band code-word; the auxiliary-data
/// substitution of Modes 2 and 3 happens downstream (Figure 1).
#[derive(Debug, Clone)]
pub struct Encoder {
    qmf: TransmitQmf,
    lower: LowerEncoderState,
    higher: HigherEncoderState,
    /// The older 16 kHz sample of an incomplete pair left by a call with
    /// an odd number of samples.
    pending: Option<i32>,
}

/// The multiplexer octet `I_H I_L` (clause 1.4.4).
pub open spec fn octet_of(il: int, ih: int) -> int {
    ih * 64 + il
}

impl Encoder {
    /// The encoder's internal ranges hold.
    pub closed spec fn wf(self) -> bool {
        self.lower.wf() && self.higher.wf()
    }

    /// The lower sub-band predictor and scale-factor state of the
    /// embedded local decoder.
    pub closed spec fn lower_state(self) -> SubBandState {
        self.lower.s
    }

    /// The higher sub-band predictor and scale-factor state of the
    /// embedded local decoder.
    pub closed spec fn higher_state(self) -> SubBandState {
        self.higher.s
    }

    /// The buffered sample of an incomplete pair, if any.
    pub closed spec fn pending_spec(self) -> Option<i32> {
        self.pending
    }

    /// An encoder at the reset condition.
    pub closed spec fn fresh_spec() -> Encoder {
        Encoder {
            qmf: TransmitQmf::zero_spec(),
            lower: LowerEncoderState { s: SubBandState::new_lower_spec() },
            higher: HigherEncoderState { s: SubBandState::new_higher_spec() },
            pending: None,
        }
    }

    /// The two sub-band encoders on `(x_L, x_H)` with the transmit QMF
    /// bypassed: the next encoder and the octet.
    pub closed spec fn subband_spec(self, xl: int, xh: int) -> (Encoder, u8) {
        let il = lower_code_spec(self.lower.s, xl);
        let ih = higher_code_spec(self.higher.s, xh);
        (
            Encoder {
                lower: LowerEncoderState { s: lower_adapt_spec(self.lower.s, il / 4) },
                higher: HigherEncoderState { s: higher_adapt_spec(self.higher.s, ih) },
                ..self
            },
            octet_of(il, ih) as u8,
        )
    }

    /// The analysis QMF alone on `(x_in(j-1), x_in(j))`.
    pub closed spec fn analysis_spec(self, x_first: i32, x_second: i32) -> (Encoder, (i32, i32)) {
        let (q, (xl, xh)) = self.qmf.step_spec(x_first, x_second);
        (Encoder { qmf: q, ..self }, (xl as i32, xh as i32))
    }

    /// One 8 kHz step from the pair `(x_in(j-1), x_in(j))`: the next
    /// encoder and the octet.
    pub closed spec fn pair_spec(self, x_first: i32, x_second: i32) -> (Encoder, u8) {
        let (e, (xl, xh)) = self.analysis_spec(x_first, x_second);
        e.subband_spec(xl as int, xh as int)
    }

    /// One 16 kHz sample into the stream interface: it completes the
    /// buffered pair (emitting one octet) or is buffered itself.
    pub closed spec fn sample_spec(self, x: i32) -> (Encoder, Seq<u8>) {
        match self.pending {
            Some(p) => {
                let (e, o) = Encoder { pending: None, ..self }.pair_spec(p, x);
                (e, seq![o])
            },
            None => (Encoder { pending: Some(x), ..self }, Seq::<u8>::empty()),
        }
    }

    /// A sample stream into the stream interface: the final encoder and
    /// the octets emitted, in order.
    pub closed spec fn feed_spec(self, input: Seq<i32>) -> (Encoder, Seq<u8>)
        decreases input.len(),
    {
        if input.len() == 0 {
            (self, Seq::<u8>::empty())
        } else {
            let (e, out) = self.feed_spec(input.drop_last());
            let (e2, o) = e.sample_spec(input.last());
            (e2, out + o)
        }
    }
}

proof fn lemma_octet_bits(il: u8, ih: u8)
    requires
        il <= 63,
        ih <= 3,
    ensures
        (((ih & 3u8) << 6u8) | (il & 63u8)) as int == octet_of(il as int, ih as int),
        octet_of(il as int, ih as int) as u8 as int == octet_of(il as int, ih as int),
{
    assert((((ih & 3u8) << 6u8) | (il & 63u8)) == ih * 64 + il) by (bit_vector)
        requires
            il <= 63,
            ih <= 3,
    ;
}

/// One sub-band step keeps the encoder well formed and emits an octet
/// whose lower code-word is never one of the four reserved code-words
/// `000000 .. 000011`.
pub proof fn lemma_subband_step_wf(e: Encoder, xl: int, xh: int)
    requires
        e.wf(),
    ensures
        e.subband_spec(xl, xh).0.wf(),
        e.subband_spec(xl, xh).0.pending_spec() == e.pending_spec(),
        e.subband_spec(xl, xh).1 % 64 >= 4,
{
    let il = lower_code_spec(e.lower.s, xl);
    let ih = higher_code_spec(e.higher.s, xh);
    lemma_codes_in_range(e.lower.s, e.higher.s, xl, xh);
    lemma_lower_adapt_wf(e.lower.s, il / 4);
    lemma_higher_adapt_wf(e.higher.s, ih);
}

/// The code-words of one step: `I_L` in `4 ..= 63`, `I_H` in `0 ..= 3`.
pub proof fn lemma_codes_in_range(lo: SubBandState, hi: SubBandState, xl: int, xh: int)
    requires
        lo.wf(),
        hi.wf(),
    ensures
        4 <= lower_code_spec(lo, xl) <= 63,
        0 <= higher_code_spec(hi, xh) <= 3,
{
    lemma_table_ranges();
    lemma_lower_interval_range(
        quant_magnitude(clamp16(xl - lo.predicted())),
        lo.detl as int,
        1,
        0,
    );
}

} // verus!

verus! {

impl Encoder {
    /// Construct an encoder with all delay lines zeroed.
    pub fn new() -> (r: Self)
        ensures
            r.wf(),
            r == Self::fresh_spec(),
    {
        Encoder {
            qmf: TransmitQmf::new(),
            lower: LowerEncoderState::new(),
            higher: HigherEncoderState::new(),
            pending: None,
        }
    }

    /// Reset all encoder state (delay lines, predictors, scale factors,
    /// buffered sample) to the post-reset condition of clauses 3.5 / 3.6.
    pub fn reset(&mut self)
        requires
            old(self).wf(),
        ensures
            final(self).wf(),
            *final(self) == Self::fresh_spec(),
    {
        self.qmf.reset();
        self.lower.reset();
        self.higher.reset();
        self.pending = None;
    }

    /// Run the two sub-band encoders on `(x_L, x_H)` with the transmit
    /// QMF bypassed (Configuration 1 of Appendix II) and return the
    /// multiplexed octet.
    pub fn encode_subband_pair(&mut self, xl: i32, xh: i32) -> (r: u8)
        requires
            old(self).wf(),
        ensures
            final(self).wf(),
            (*final(self), r) == old(self).subband_spec(xl as int, xh as int),
            r % 64 >= 4,
    {
        proof {
            lemma_subband_step_wf(*self, xl as int, xh as int);
        }
        let il: u8 = self.lower.step(xl);
        let ih: u8 = self.higher.step(xh);
        proof {
            lemma_octet_bits(il, ih);
        }
        ((ih & 0x3) << 6) | (il & 0x3F)
    }

    /// Run only the analysis QMF on `(x_in(j-1), x_in(j))`, returning
    /// `(x_L, x_H)` without quantization.
    pub fn analysis_qmf_step(&mut self, x_first: i32, x_second: i32) -> (r: (i32, i32))
        requires
            old(self).wf(),
        ensures
            final(self).wf(),
            (*final(self), r) == old(self).analysis_spec(x_first, x_second),
    {
        self.qmf.step(x_first, x_second)
    }

    /// Encode one 8 kHz step from the 16 kHz pair `(x_in(j-1), x_in(j))`
    /// into one octet.
    pub fn encode_pair(&mut self, x_first: i32, x_second: i32) -> (r: u8)
        requires
            old(self).wf(),
        ensures
            final(self).wf(),
            (*final(self), r) == old(self).pair_spec(x_first, x_second),
            r % 64 >= 4,
    {
        let (xl, xh) = self.qmf.step(x_first, x_second);
        self.encode_subband_pair(xl, xh)
    }

    /// Append the octets for `input` to `out`. An odd sample left over is
    /// buffered and pairs with the first sample of the next call.
    pub fn encode_into(&mut self, input: &[i32], out: &mut Vec<u8>)
        requires
            old(self).wf(),
        ensures
            final(self).wf(),
            *final(self) == old(self).feed_spec(input@).0,
            final(out)@ == old(out)@ + old(self).feed_spec(input@).1,
    {
        let ghost e0 = *self;
        let ghost out0 = out@;
        let n: usize = input.len();
        let mut i: usize = 0;
        while i < n
            invariant
                n == input@.len(),
                i <= n,
                self.wf(),
                *self == e0.feed_spec(input@.subrange(0, i as int)).0,
                out@ == out0 + e0.feed_spec(input@.subrange(0, i as int)).1,
            decreases n - i,
        {
            let ghost pre = input@.subrange(0, i as int);
            let ghost pre1 = input@.subrange(0, i as int + 1);
            proof {
                assert(pre1.drop_last() =~= pre);
                assert(pre1.last() == input@[i as int]);
            }
            let x: i32 = input[i];
            match self.pending {
                Some(p) => {
                    self.pending = None;
                    let o: u8 = self.encode_pair(p, x);
                    out.push(o);
                    proof {
                        assert(out@ =~= out0 + e0.feed_spec(pre1).1);
                    }
                },
                None => {
                    self.pending = Some(x);
                    proof {
                        assert(out@ =~= out0 + e0.feed_spec(pre1).1);
                    }
                },
            }
            i = i + 1;
        }
        proof {
            assert(input@.subrange(0, n as int) =~= input@);
        }
    }

    /// Encode a 16 kHz slice into a new octet vector; an odd trailing
    /// sample is buffered for the next call.
    pub fn encode(&mut self, input: &[i32]) -> (r: Vec<u8>)
        requires
            old(self).wf(),
        ensures
            final(self).wf(),
            (*final(self), r@) == old(self).feed_spec(input@),
    {
        let mut out: Vec<u8> = Vec::new();
        self.encode_into(input, &mut out);
        proof {
            assert(out@ =~= old(self).feed_spec(input@).1);
        }
        out
    }

    /// Number of samples held over for the next call (0 or 1).
    pub fn pending_samples(&self) -> (r: usize)
        ensures
            r == (if self.pending_spec() is Some {
                1usize
            } else {
                0usize
            }),
    {
        match self.pending {
            Some(_) => 1,
            None => 0,
        }
    }
}

impl Default for Encoder {
    /// An encoder at the reset condition.
    fn default() -> (r: Self)
        ensures
            r == Self::fresh_spec(),
    {
        Self::new()
    }
}

} // verus!

verus! {

/// One pair step keeps the encoder well formed and its buffered sample.
proof fn lemma_pair_step_wf(e: Encoder, x_first: i32, x_second: i32)
    requires
        e.wf(),
    ensures
        e.pair_spec(x_first, x_second).0.wf(),
        e.pair_spec(x_first, x_second).0.pending_spec() == e.pending_spec(),
        e.pair_spec(x_first, x_second).1 % 64 >= 4,
{
    let (e1, (xl, xh)) = e.analysis_spec(x_first, x_second);
    lemma_subband_step_wf(e1, xl as int, xh as int);
}

/// Feeding a sample stream keeps the encoder well formed, emits one octet
/// per completed pair (counting a sample buffered before), leaves a
/// sample buffered exactly when that count is odd, and never emits one
/// of the four reserved lower sub-band code-words.
pub proof fn lemma_feed_counts(e: Encoder, input: Seq<i32>)
    requires
        e.wf(),
    ensures
        e.feed_spec(input).0.wf(),
        ({
            let held: int = if e.pending_spec() is Some {
                1
            } else {
                0
            };
            &&& e.feed_spec(input).1.len() == (held + input.len()) / 2
            &&& (e.feed_spec(input).0.pending_spec() is Some) == ((held + input.len()) % 2 == 1)
        }),
        forall|i: int|
            0 <= i < e.feed_spec(input).1.len() ==> #[trigger] e.feed_spec(input).1[i] % 64 >= 4,
    decreases input.len(),
{
    if input.len() > 0 {
        lemma_feed_counts(e, input.drop_last());
        let (e1, o1) = e.feed_spec(input.drop_last());
        let x = input.last();
        match e1.pending {
            Some(p) => {
                lemma_pair_step_wf(Encoder { pending: None, ..e1 }, p, x);
            },
            None => {},
        }
        let (e2, o2) = e1.sample_spec(x);
        let out = o1 + o2;
        assert forall|i: int| 0 <= i < out.len() implies #[trigger] out[i] % 64 >= 4 by {
            if i < o1.len() {
                assert(out[i] == o1[i]);
            }
        }
    }
}

/// Encoding is insensitive to how the input is split into calls: feeding
/// `a` then `b` reaches the same encoder and emits the same octets as
/// feeding `a + b` in one call.
pub proof fn lemma_feed_concat(e: Encoder, a: Seq<i32>, b: Seq<i32>)
    ensures
        e.feed_spec(a + b) == ({
            let (e1, o1) = e.feed_spec(a);
            let (e2, o2) = e1.feed_spec(b);
            (e2, o1 + o2)
        }),
    decreases b.len(),
{
    if b.len() == 0 {
        assert(a + b =~= a);
        let (e1, o1) = e.feed_spec(a);
        assert(o1 + Seq::<u8>::empty() =~= o1);
    } else {
        assert((a + b).drop_last() =~= a + b.drop_last());
        assert((a + b).last() == b.last());
        lemma_feed_concat(e, a, b.drop_last());
        let (e1, o1) = e.feed_spec(a);
        let (em, om) = e1.feed_spec(b.drop_last());
        let (e2, o2) = em.sample_spec(b.last());
        assert(o1 + om + o2 =~= o1 + (om + o2));
    }
}

/// One QMF-bypassed encoder step updates the two local-decoder states by
/// the shared adaptation of the emitted code-words: `I_L`'s four MSBs
/// and `I_H`.
pub proof fn lemma_encoder_subband_states(e: Encoder, xl: int, xh: int)
    ensures
        ({
            let (e1, o) = e.subband_spec(xl, xh);
            &&& e1.lower_state() == lower_adapt_spec(e.lower_state(), lower_code_spec(e.lower_state(), xl) / 4)
            &&& e1.higher_state() == higher_adapt_spec(e.higher_state(), higher_code_spec(e.higher_state(), xh))
            &&& e.wf() ==> (o as int % 64 == lower_code_spec(e.lower_state(), xl) && o as int / 64
                == higher_code_spec(e.higher_state(), xh))
        }),
{
    if e.wf() {
        lemma_codes_in_range(e.lower.s, e.higher.s, xl, xh);
    }
}

/// One full encoder step updates the two local-decoder states exactly as
/// the QMF-bypassed step on the analysis outputs does.
pub proof fn lemma_encoder_pair_is_subband(e: Encoder, x_first: i32, x_second: i32)
    ensures
        ({
            let (e1, (xl, xh)) = e.analysis_spec(x_first, x_second);
            &&& e.pair_spec(x_first, x_second) == e1.subband_spec(xl as int, xh as int)
            &&& e1.lower_state() == e.lower_state()
            &&& e1.higher_state() == e.higher_state()
            &&& (e.wf() ==> e1.wf())
        }),
{
}

/// QUANTL is monotone in the magnitude of the difference signal: a
/// larger magnitude never selects a lower quantizer interval.
pub proof fn lemma_lower_interval_monotone(wd1: int, wd2: int, detl: int, k: int, prev: int)
    requires
        wd1 <= wd2,
    ensures
        lower_interval(wd1, detl, k, prev) <= lower_interval(wd2, detl, k, prev),
    decreases 30 - k,
{
    if !(k > 29 || k < 1) {
        let ldu = lower_level(k, detl);
        lemma_lower_interval_monotone(wd1, wd2, detl, k + 1, ldu);
        lemma_lower_interval_range(wd2, detl, k + 1, ldu);
        lemma_lower_interval_range(wd1, detl, k + 1, ldu);
    }
}

} // verus!

verus! {

/// A fresh encoder's embedded local decoder and a fresh decoder in any
/// mode start from the same predictor and scale-factor states.
pub proof fn lemma_fresh_states_agree(m: Mode)
    ensures
        Encoder::fresh_spec().lower_state() == Decoder::fresh_spec(m).lower_state(),
        Encoder::fresh_spec().higher_state() == Decoder::fresh_spec(m).higher_state(),
        Encoder::fresh_spec().wf(),
        Decoder::fresh_spec(m).wf(),
{
    lemma_fresh_decoder(m);
    assert(SubBandState::new_lower_spec().wf());
    assert(SubBandState::new_higher_spec().wf());
}

/// Transmit/receive lockstep (Figures 4, 6 and 7): when the encoder's
/// embedded local decoder and a decoder (in any mode) hold the same
/// predictor states, decoding the code-words the encoder emits for any
/// sub-band inputs keeps the two in the same states.
pub proof fn lemma_subband_lockstep(e: Encoder, d: Decoder, xl: int, xh: int)
    requires
        e.wf(),
        e.lower_state() == d.lower_state(),
        e.higher_state() == d.higher_state(),
    ensures
        ({
            let (e1, o) = e.subband_spec(xl, xh);
            let (d1, r) = d.subband_spec(o as int % 64, o as int / 64);
            e1.lower_state() == d1.lower_state() && e1.higher_state() == d1.higher_state()
        }),
{
    let (e1, o) = e.subband_spec(xl, xh);
    lemma_encoder_subband_states(e, xl, xh);
    lemma_decoder_subband_states(d, o as int % 64, o as int / 64);
}

/// The same lockstep through the QMFs: an octet from
/// [`Encoder::encode_pair`] fed to [`Decoder::decode_octet`] keeps the
/// local decoder and the decoder in the same predictor states.
pub proof fn lemma_octet_lockstep(e: Encoder, d: Decoder, x_first: i32, x_second: i32)
    requires
        e.wf(),
        e.lower_state() == d.lower_state(),
        e.higher_state() == d.higher_state(),
    ensures
        ({
            let (e1, o) = e.pair_spec(x_first, x_second);
            let (d1, r) = d.octet_spec(o);
            e1.lower_state() == d1.lower_state() && e1.higher_state() == d1.higher_state()
        }),
{
    let (ea, (xl, xh)) = e.analysis_spec(x_first, x_second);
    lemma_encoder_pair_is_subband(e, x_first, x_second);
    lemma_subband_lockstep(ea, d, xl as int, xh as int);
    let (e1, o) = e.pair_spec(x_first, x_second);
    lemma_decoder_octet_states(d, o);
}

} // verus!

verus! {

/// A reset encoder holds no pending sample and is well formed; and on an
/// encoder with nothing pending, a pair through `encode_pair` is the
/// two-sample stream through `encode`: the same single octet and the
/// same final state.
#[verifier::rlimit(50)]
pub proof fn lemma_fresh_encoder_and_pairs(e: Encoder, x_first: i32, x_second: i32)
    requires
        e.wf(),
        e.pending_spec() is None,
    ensures
        Encoder::fresh_spec().wf(),
        Encoder::fresh_spec().pending_spec() is None,
        e.feed_spec(seq![x_first, x_second]).0 == e.pair_spec(x_first, x_second).0,
        e.feed_spec(seq![x_first, x_second]).1 == seq![e.pair_spec(x_first, x_second).1],
{
    lemma_fresh_states_agree(Mode::Mode1);
    crate::decoder::lemma_fresh_decoder(Mode::Mode1);
    let s = seq![x_first, x_second];
    let s1 = seq![x_first];
    assert(s.drop_last() =~= s1);
    assert(s.last() == x_first || s.last() == x_second);
    assert(s.last() == x_second);
    assert(s1.drop_last() =~= Seq::<i32>::empty());
    assert(s1.last() == x_first);
    let e1 = Encoder { pending: Some(x_first), ..e };
    assert(e.feed_spec(Seq::<i32>::empty()) == (e, Seq::<u8>::empty()));
    assert(e.sample_spec(x_first) == (e1, Seq::<u8>::empty()));
    assert(Seq::<u8>::empty() + Seq::<u8>::empty() =~= Seq::<u8>::empty());
    assert(e.feed_spec(s1) == (e1, Seq::<u8>::empty()));
    assert(Encoder { pending: None, ..e1 } == e);
    let po = e.pair_spec(x_first, x_second);
    assert(e1.sample_spec(x_second) == (po.0, seq![po.1]));
    assert(Seq::<u8>::empty() + seq![po.1] =~= seq![po.1]);
}

} // verus!
