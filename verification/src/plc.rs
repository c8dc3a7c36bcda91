//! The G.722 decoder with the low-complexity packet-loss concealment of
//! Appendix IV: the standard SB-ADPCM decoder plus a concealment path
//! that, on erased frames, extrapolates the lower sub-band by LPC-based
//! pitch repetition and the higher sub-band by pitch-synchronous
//! repetition, applies class-driven adaptive muting (Table IV.3), hands
//! the extrapolated state over to the ADPCM decoders, and cross-fades
//! back into decoded audio on the first good frame. A remove-DC filter
//! conditions the higher band during erasures and for four seconds
//! afterwards. Frames are 10 ms or 20 ms (`2 L` samples at 16 kHz with
//! `L = 80` or `160` per sub-band); output is 16-bit PCM.
//!
//! Also here: the signal classes and their muting parameters, the
//! per-band muting state, the repetition period that seeds the residual
//! extrapolation, and the residual peak count of the transient test.

use vstd::prelude::*;

use crate::basicop::{l_mac_spec, l_mult_spec, mult_r_spec, round_spec, shr16_spec};
use crate::decoder::Decoder;
use crate::mode::Mode;
use crate::plc_analysis::{
    all_in16, crossings, hpost_spec, hpre_spec, ints, lp_analysis_spec, ltp_spec, residual_spec, same_values,
    synthesis_spec, LP_ORDER, REFINE_SMALLER_PITCH_MARGIN_Q15, TDS_SMALLER_PITCH_MARGIN_Q15,
};
use crate::predictor::{clamp16, in16};

verus! {

/// Q15 unity of the muting factors.
pub const Q15_ONE: i32 = 32_767;

/// Length of the lower-band residual history `e(-289 .. -1)`.
pub const E_HISTORY: usize = 289;

/// Signal class of the frame preceding an erasure.
#[derive(Debug, Clone, Copy, PartialEq, Eq, Structural)]
pub enum Class {
    /// A transient (a residual peak in the last pitch period).
    Transient,
    /// Unvoiced (high zero-crossing rate).
    Unvoiced,
    /// A voiced / unvoiced transition.
    VuvTransition,
    /// Weakly voiced.
    WeaklyVoiced,
    /// Voiced (strong pitch correlation).
    Voiced,
}

/// Adaptive-muting parameters of Table IV.3: the counter increment per
/// sample, the per-sample decrements before 80, 160 and 320 counted
/// samples, and the decrement over the cross-fade extension of a first
/// erased 10 ms frame.
#[derive(Debug, Clone, Copy, PartialEq, Eq, Structural)]
pub struct MutingParams {
    /// Counter increment per sample.
    pub inc_mute: i32,
    /// Per-sample decrement, always applied.
    pub fac1: i32,
    /// Additional decrement once the counter reaches 80.
    pub fac2p: i32,
    /// Additional decrement once the counter reaches 160.
    pub fac3p: i32,
    /// Decrement over the cross-fade extension of a first erased 10 ms
    /// frame.
    pub cf10: i32,
}

impl MutingParams {
    /// The parameters are those of a row of Table IV.3: small
    /// non-negative steps.
    pub open spec fn wf(self) -> bool {
        &&& 0 <= self.inc_mute <= 4
        &&& 0 <= self.fac1 <= Q15_ONE
        &&& 0 <= self.fac2p <= Q15_ONE
        &&& 0 <= self.fac3p <= Q15_ONE
        &&& 0 <= self.cf10 <= Q15_ONE
    }
}

/// Table IV.3: transient frames mute fastest, voiced / unvoiced
/// transitions next, every other class slowest.
pub open spec fn muting_params_spec(c: Class) -> MutingParams {
    match c {
        Class::Transient => MutingParams { inc_mute: 4, fac1: 409, fac2p: 409, fac3p: 409, cf10: 0 },
        Class::VuvTransition => MutingParams {
            inc_mute: 2,
            fac1: 10,
            fac2p: 10,
            fac3p: 399,
            cf10: 399,
        },
        _ => MutingParams { inc_mute: 1, fac1: 10, fac2p: 20, fac3p: 190, cf10: 20 },
    }
}

impl Class {
    /// The adaptive-muting parameters of Table IV.3 for this class.
    pub fn muting_params(self) -> (p: MutingParams)
        ensures
            p == muting_params_spec(self),
            p.wf(),
    {
        match self {
            Class::Transient => MutingParams { inc_mute: 4, fac1: 409, fac2p: 409, fac3p: 409, cf10: 0 },
            Class::VuvTransition => MutingParams {
                inc_mute: 2,
                fac1: 10,
                fac2p: 10,
                fac3p: 399,
                cf10: 399,
            },
            _ => MutingParams { inc_mute: 1, fac1: 10, fac2p: 20, fac3p: 190, cf10: 20 },
        }
    }
}

/// Per-band adaptive muting state: the Q15 gain and the sample counter.
#[derive(Debug, Clone, Copy, PartialEq, Eq, Structural)]
pub struct MuteState {
    /// Q15 muting gain, `0 ..= 32767`.
    pub g: i32,
    /// Muting counter.
    pub cnt: i32,
}

/// A counter value held at `i32::MAX`.
pub open spec fn sat_count(v: int) -> int {
    if v > 0x7fff_ffff {
        0x7fff_ffff
    } else {
        v
    }
}

/// `max(v, 0)`.
pub open spec fn floor_zero(v: int) -> int {
    if v < 0 {
        0
    } else {
        v
    }
}

impl MuteState {
    /// The gain is a Q15 factor in `[0, 1]` and the counter is not
    /// negative.
    pub open spec fn wf(self) -> bool {
        0 <= self.g <= Q15_ONE && 0 <= self.cnt
    }

    /// One sample of the general schedule: the gain drops by `fac1`, by
    /// `fac2p` more from 80 counted samples on, by `fac3p` more from
    /// 160 on, to zero from 320 on, never below zero; the counter
    /// advances by `inc_mute`.
    pub open spec fn step_general_spec(self, p: MutingParams) -> MuteState {
        let g1 = self.g - p.fac1;
        let g2 = if self.cnt >= 80 {
            g1 - p.fac2p
        } else {
            g1
        };
        let g3 = if self.cnt >= 160 {
            g2 - p.fac3p
        } else {
            g2
        };
        let g4 = if self.cnt >= 320 {
            0
        } else {
            g3
        };
        MuteState { g: floor_zero(g4) as i32, cnt: sat_count(self.cnt + p.inc_mute) as i32 }
    }

    /// Back to unity gain with a zero counter.
    pub fn reset(&mut self)
        ensures
            final(self).g == Q15_ONE,
            final(self).cnt == 0,
            final(self).wf(),
    {
        self.g = Q15_ONE;
        self.cnt = 0;
    }

    /// One sample of the general muting schedule (20 ms frames, or
    /// consecutive erased 10 ms frames); returns the new gain.
    pub fn step_general(&mut self, p: &MutingParams) -> (g: i32)
        requires
            old(self).wf(),
            p.wf(),
        ensures
            *final(self) == old(self).step_general_spec(*p),
            g == final(self).g,
            final(self).wf(),
            final(self).g <= old(self).g,
    {
        self.g = self.g - p.fac1;
        if self.cnt >= 80 {
            self.g = self.g - p.fac2p;
        }
        if self.cnt >= 160 {
            self.g = self.g - p.fac3p;
        }
        if self.cnt >= 320 {
            self.g = 0;
        }
        if self.g < 0 {
            self.g = 0;
        }
        self.cnt = if self.cnt <= i32::MAX - p.inc_mute {
            self.cnt + p.inc_mute
        } else {
            i32::MAX
        };
        self.g
    }

    /// One sample of the first-erased-10-ms schedule: a plain decrement
    /// by `fac`, never below zero; the counter is left alone.
    pub fn step_first10(&mut self, fac: i32) -> (g: i32)
        requires
            old(self).wf(),
            0 <= fac <= Q15_ONE,
        ensures
            final(self).g == floor_zero(old(self).g - fac),
            final(self).cnt == old(self).cnt,
            g == final(self).g,
            final(self).wf(),
    {
        self.g = self.g - fac;
        if self.g < 0 {
            self.g = 0;
        }
        self.g
    }
}

/// Once the counter has reached 320 the general schedule holds the gain
/// at zero, whatever the class.
pub proof fn lemma_muted_after_320(m: MuteState, p: MutingParams)
    requires
        m.wf(),
        p.wf(),
        m.cnt >= 320,
    ensures
        m.step_general_spec(p).g == 0,
{
}

/// The general schedule never raises the gain and keeps it a Q15
/// factor in `[0, 1]`.
pub proof fn lemma_muting_monotone(m: MuteState, p: MutingParams)
    requires
        m.wf(),
        p.wf(),
    ensures
        m.step_general_spec(p).g <= m.g,
        m.step_general_spec(p).wf(),
{
}

/// Analysis results of the first erased frame, kept across consecutive
/// erasures: the Q12 LP coefficients, the pitch delay and the class.
#[derive(Debug, Clone, Copy)]
pub struct Analysis {
    /// LP coefficients `a(1 ..= 8)` in Q12.
    pub a: [i32; 8],
    /// Pitch delay `T0`.
    pub t0: usize,
    /// Signal class.
    pub class: Class,
}

/// `abs_s`: the 16-bit saturating absolute value.
pub open spec fn abs16(v: int) -> int {
    clamp16(if v < 0 {
        -v
    } else {
        v
    })
}

/// The largest `abs_s` over the first `k` of the five positions
/// `c - 2 ..= c + 2` that lie inside the history (0 when none does).
pub open spec fn nbhd_max_upto(e: Seq<int>, c: int, k: int) -> int
    decreases k,
{
    if k <= 0 {
        0
    } else {
        let prev = nbhd_max_upto(e, c, k - 1);
        let idx = c - 2 + (k - 1);
        if 0 <= idx < E_HISTORY {
            let v = abs16(e[idx]);
            if v > prev {
                v
            } else {
                prev
            }
        } else {
            prev
        }
    }
}

/// The largest `abs_s` of the residual in a +-2 neighbourhood of `c`.
pub open spec fn nbhd_max(e: Seq<int>, c: int) -> int {
    nbhd_max_upto(e, c, 5)
}

/// The residual at index `m` of the history, limited for classes other
/// than voiced to the largest magnitude around the same position one
/// period earlier, the sign kept.
pub open spec fn limited(e: Seq<int>, m: int, t0: int, class: Class) -> int {
    if class == Class::Voiced {
        e[m]
    } else {
        let mag = if abs16(e[m]) <= nbhd_max(e, m - t0) {
            abs16(e[m])
        } else {
            nbhd_max(e, m - t0)
        };
        if e[m] < 0 {
            -mag
        } else {
            mag
        }
    }
}

/// The repetition period `e(-T0-1 .. -1)`: the first sample as it is,
/// the last `T0` limited per [`limited`].
pub open spec fn repetition_spec(e: Seq<int>, t0: int, class: Class) -> Seq<int> {
    Seq::new(
        (t0 + 1) as nat,
        |k: int|
            if k == 0 {
                e[E_HISTORY - t0 - 1]
            } else {
                limited(e, E_HISTORY - t0 - 1 + k, t0, class)
            },
    )
}

/// The largest `abs_s` of the residual in a +-2 neighbourhood of `c`,
/// over the positions inside the history.
fn neighbourhood_max(e_hist: &[i32], c: usize, t0: usize) -> (r: i32)
    requires
        e_hist@.len() == E_HISTORY,
        all_in16(e_hist@),
        c <= E_HISTORY,
        t0 <= E_HISTORY,
    ensures
        r as int == nbhd_max(ints(e_hist@), c - t0),
        0 <= r <= 32767,
{
    let ghost e: Seq<int> = ints(e_hist@);
    let mut prev_max: i32 = 0;
    let mut k: usize = 0;
    while k < 5
        invariant
            k <= 5,
            e_hist@.len() == E_HISTORY,
            all_in16(e_hist@),
            e == ints(e_hist@),
            c <= E_HISTORY,
            t0 <= E_HISTORY,
            prev_max as int == nbhd_max_upto(e, c - t0, k as int),
            0 <= prev_max <= 32767,
        decreases 5 - k,
    {
        // The position c - t0 - 2 + k, tested for lying in the history.
        if c + k >= t0 + 2 && c + k - (t0 + 2) < E_HISTORY {
            let idx: usize = c + k - (t0 + 2);
            proof {
                assert(in16(e_hist@[idx as int] as int));
            }
            let v: i32 = crate::basicop::abs_s(e_hist[idx]);
            if v > prev_max {
                prev_max = v;
            }
        }
        k = k + 1;
    }
    prev_max
}

/// The repetition period seeding an erasure run's residual
/// extrapolation: `e(-T0-1 .. -1)` from the residual history, each of
/// the last `T0` samples magnitude-limited, when the class is not
/// voiced, to the largest magnitude in a +-2 neighbourhood one period
/// earlier. `e_hist` holds `e(-289 .. -1)`.
pub fn build_repetition_period(analysis: &Analysis, e_hist: &[i32]) -> (rep: Vec<i32>)
    requires
        e_hist@.len() == E_HISTORY,
        all_in16(e_hist@),
        analysis.t0 < E_HISTORY,
    ensures
        same_values(rep@, repetition_spec(ints(e_hist@), analysis.t0 as int, analysis.class)),
{
    let t0: usize = analysis.t0;
    let ghost e: Seq<int> = ints(e_hist@);
    let ghost spec: Seq<int> = repetition_spec(e, t0 as int, analysis.class);
    let mut rep: Vec<i32> = Vec::new();
    rep.push(e_hist[E_HISTORY - t0 - 1]);
    let mut k: usize = 1;
    while k <= t0
        invariant
            1 <= k <= t0 + 1,
            t0 == analysis.t0,
            t0 < E_HISTORY,
            e_hist@.len() == E_HISTORY,
            all_in16(e_hist@),
            e == ints(e_hist@),
            spec == repetition_spec(e, t0 as int, analysis.class),
            rep@.len() == k,
            forall|j: int| 0 <= j < k ==> #[trigger] rep@[j] as int == spec[j],
        decreases t0 + 1 - k,
    {
        let m: usize = E_HISTORY - t0 - 1 + k;
        let raw: i32 = e_hist[m];
        proof {
            assert(in16(e_hist@[m as int] as int));
        }
        let v: i32 = if analysis.class == Class::Voiced {
            raw
        } else {
            let prev_max: i32 = neighbourhood_max(e_hist, m, t0);
            let a: i32 = crate::basicop::abs_s(raw);
            let mag: i32 = if a <= prev_max {
                a
            } else {
                prev_max
            };
            if raw < 0 {
                -mag
            } else {
                mag
            }
        };
        rep.push(v);
        k = k + 1;
    }
    rep
}

/// The number of samples `n` of the last pitch period whose residual
/// magnitude over 4 (`shr(abs_s(e(n)), 2)`) exceeds the largest magnitude
/// in a +-2 neighbourhood one period earlier, over the first `k` of the
/// `T0` samples.
pub open spec fn peaks_upto(e: Seq<int>, t0: int, k: int) -> int
    decreases k,
{
    if k <= 0 {
        0
    } else {
        let m = E_HISTORY - t0 + (k - 1);
        peaks_upto(e, t0, k - 1) + (if shr16_spec(abs16(e[m]), 2) > nbhd_max(e, m - t0) {
            1int
        } else {
            0int
        })
    }
}

/// The number of large residual peaks in the last pitch period: samples
/// whose magnitude over 4 exceeds every magnitude in a +-2 neighbourhood
/// one period earlier. `e_hist` holds `e(-289 .. -1)`.
pub fn count_peaks(e_hist: &[i32], t0: usize) -> (cnt: u32)
    requires
        e_hist@.len() == E_HISTORY,
        all_in16(e_hist@),
        t0 <= E_HISTORY,
    ensures
        cnt as int == peaks_upto(ints(e_hist@), t0 as int, t0 as int),
        cnt <= t0,
{
    let ghost e: Seq<int> = ints(e_hist@);
    let mut cnt: u32 = 0;
    let mut k: usize = 0;
    while k < t0
        invariant
            k <= t0 <= E_HISTORY,
            e_hist@.len() == E_HISTORY,
            all_in16(e_hist@),
            e == ints(e_hist@),
            cnt as int == peaks_upto(e, t0 as int, k as int),
            cnt <= k,
        decreases t0 - k,
    {
        let m: usize = E_HISTORY - t0 + k;
        proof {
            assert(in16(e_hist@[m as int] as int));
        }
        let cur: i32 = crate::basicop::shr(crate::basicop::abs_s(e_hist[m]), 2);
        let prev_max: i32 = neighbourhood_max(e_hist, m, t0);
        if cur > prev_max {
            cnt = cnt + 1;
        }
        k = k + 1;
    }
    cnt
}

// -----------------------------------------------------------------------
// The concealment decoder
// -----------------------------------------------------------------------

/// Lower-band history kept for the analysis: 288 samples (twice the
/// longest pitch delay), one of pitch jitter and eight of LPC memory.
pub const ZL_HISTORY: usize = 297;

/// Higher-band history kept for the repetition.
pub const ZH_HISTORY: usize = 160;

/// Q15 voicing threshold: a pitch correlation above it marks the frame
/// voiced (`Rmax > 0.7`).
pub const RMAX_VOICED_Q15: i32 = 22_937;

/// Sub-band samples of post-filter engagement after the last erasure
/// (4 s at 8 kHz).
pub const POST_FILTER_HOLD: u32 = 32_000;

/// Extra lower-band samples synthesised per erased frame for the
/// cross-fade (10 ms).
pub const XFADE: usize = 80;

/// Residual-extrapolation state carried across the erased frames of
/// one erasure run: the last `T0 + 1` or `T0 + 2` extrapolated residual
/// samples, the parity of the next sample's index (for the `(-1)^n`
/// pitch jitter), and the synthesis-filter memory of the muted output.
#[derive(Debug, Clone)]
pub struct ConcealState {
    e_recent: Vec<i32>,
    next_even: bool,
    mem: [i32; 8],
}

/// G.722 decoder with the Appendix IV packet-loss concealment. Good
/// frames go through [`PlcDecoder::decode_good_frame`], erased ones
/// through [`PlcDecoder::conceal_erased_frame`]; both return `2 L`
/// samples of 16 kHz PCM in the 16-bit convention of
/// [`Decoder::decode_pcm16`].
#[derive(Debug, Clone)]
pub struct PlcDecoder {
    dec: Decoder,
    l: usize,
    zl_hist: Vec<i32>,
    zh_hist: Vec<i32>,
    mute_lb: MuteState,
    mute_hb: MuteState,
    prev_erased: bool,
    analysis: Option<Analysis>,
    conceal: Option<ConcealState>,
    yl_extra: [i32; 80],
    hpost_in: i32,
    hpost_out: i32,
    post_hold: u32,
    xfade_pending: bool,
    has_pending: bool,
    pending_sl: i32,
    pending_szl: i32,
}

/// The analysis results of an erasure run are in range: 16-bit
/// coefficients and a pitch delay the histories cover.
pub open spec fn analysis_wf(a: Analysis) -> bool {
    all_in16(a.a@) && 3 <= a.t0 <= 143
}

/// The residual window covers the pitch reach-back and holds 16-bit
/// values, as does the synthesis memory.
pub closed spec fn conceal_wf(c: ConcealState, t0: int) -> bool {
    &&& t0 + 1 <= c.e_recent@.len() <= t0 + 2
    &&& all_in16(c.e_recent@)
    &&& all_in16(c.mem@)
}

/// The decoder state a good frame changes: the ADPCM decoder, the two
/// histories, the post-filter memory and its remaining hold.
pub type GoodPart = (Decoder, Seq<i32>, Seq<i32>, (i32, i32), nat);

/// The cross-fade of decoded sample `xl` with extrapolated sample `e` at
/// position `k` of the first 10 ms: a Q15 Bartlett ramp, both legs in
/// one rounded `L_mac` accumulation.
pub open spec fn xfade_spec(k: int, xl: int, e: int) -> int {
    let w_up = k * 32767 / 79;
    round_spec(l_mac_spec(l_mult_spec(w_up, xl), 32767 - w_up, e))
}

/// One octet of a good frame at position `k`: the ADPCM decoders (the
/// lower one with the hand-over prediction `pred` when given), the
/// cross-fade over the first 10 ms when `xfade`, the higher-band post
/// filter while its hold lasts, the histories, and the receive QMF.
pub open spec fn good_step(
    p: GoodPart,
    octet: u8,
    k: int,
    pred: Option<(i32, i32)>,
    xfade: bool,
    extra: Seq<i32>,
) -> (GoodPart, (int, int)) {
    let (d1, (xl, xh)) = p.0.pred_step_spec(octet, pred);
    let zl = if xfade && k < 80 {
        xfade_spec(k, xl, extra[k] as int)
    } else {
        xl
    };
    let zh = if p.4 > 0 {
        hpost_spec(xh, p.3.0 as int, p.3.1 as int)
    } else {
        xh
    };
    let mem = if p.4 > 0 {
        (xh as i32, zh as i32)
    } else {
        p.3
    };
    let hold: nat = if p.4 > 0 {
        (p.4 - 1) as nat
    } else {
        p.4
    };
    let (d2, out) = d1.synthesis_pcm16_spec(zl, zh);
    ((d2, p.1.drop_first().push(zl as i32), p.2.drop_first().push(zh as i32), mem, hold), out)
}

/// The receive QMF in the 16-bit convention over the first `n` samples
/// of the sub-band frames `zl` and `zh`: the decoder reached and the
/// `2 n` output samples.
pub open spec fn synth_run(d: Decoder, zl: Seq<i32>, zh: Seq<i32>, n: int) -> (Decoder, Seq<i16>)
    decreases n,
{
    if n <= 0 {
        (d, Seq::<i16>::empty())
    } else {
        let (d1, out) = synth_run(d, zl, zh, n - 1);
        let (d2, (a, b)) = d1.synthesis_pcm16_spec(zl[n - 1] as int, zh[n - 1] as int);
        (d2, out + seq![a as i16, b as i16])
    }
}

/// The ADPCM hand-over after a concealed frame `yl` of the lower band:
/// the lower decoder takes `yl`'s last two samples (halved as partial
/// signals, the last one whole as reconstruction), the higher decoder
/// halves its log scale factor; both scale factors go back to their
/// minimum once the higher-band muting counter has passed 160.
pub open spec fn handover_spec(d: Decoder, yl: Seq<i32>, hb_count: int) -> Decoder {
    let reset = hb_count > 160;
    let y1 = yl[yl.len() - 1];
    let y2 = yl[yl.len() - 2];
    d.conceal_lower_spec(y1 >> 1u32, y2 >> 1u32, y1, reset).conceal_higher_spec(reset)
}

/// The higher-band repetition period: the pitch delay for a voiced
/// frame, 10 ms otherwise.
pub open spec fn higher_period(a: Analysis) -> int {
    if a.class == Class::Voiced {
        a.t0 as int
    } else {
        80
    }
}

/// The first `n` samples of higher-band concealment: each sample repeats
/// the one `th` back in `ring` (the history followed by what was already
/// concealed), is muted by the general schedule and post-filtered. The
/// ring reached, the muting state and the post-filter memory.
pub open spec fn higher_conceal_run(
    ring: Seq<i32>,
    th: int,
    p: MutingParams,
    m: MuteState,
    mem: (i32, i32),
    n: int,
) -> (Seq<i32>, MuteState, (i32, i32))
    decreases n,
{
    if n <= 0 {
        (ring, m, mem)
    } else {
        let (r, m1, mem1) = higher_conceal_run(ring, th, p, m, mem, n - 1);
        let sample = r[r.len() - th];
        let m2 = m1.step_general_spec(p);
        let u = mult_r_spec(m2.g as int, sample as int);
        let v = hpost_spec(u, mem1.0 as int, mem1.1 as int);
        (r.push(v as i32), m2, (u as i32, v as i32))
    }
}

/// The residual window, index parity and synthesis memory of the
/// lower-band extrapolation.
pub type LowerConceal = (Seq<i32>, bool, Seq<i32>);

/// The lower-band muting step at sample `k` of a frame: on the first
/// erased 10 ms frame a plain decrement by `fac1` for the frame and by
/// `cf10` over the extension (the counter advanced by `80 inc_mute`
/// when the extension starts), the general schedule otherwise.
pub open spec fn lower_mute_step(m: MuteState, p: MutingParams, first10: bool, k: int) -> MuteState {
    if first10 {
        if k < 80 {
            MuteState { g: floor_zero(m.g - p.fac1) as i32, cnt: m.cnt }
        } else {
            let c = if k == 80 {
                sat_count(m.cnt + 80 * p.inc_mute) as i32
            } else {
                m.cnt
            };
            MuteState { g: floor_zero(m.g - p.cf10) as i32, cnt: c }
        }
    } else {
        m.step_general_spec(p)
    }
}

/// The first `n` extrapolated lower-band samples: each residual sample
/// repeats the one `T0` back in the window (`T0 - 1` or `T0 + 1`
/// alternately when the class is not voiced), goes through the LP
/// synthesis on the muted output memory and is muted. The state reached,
/// the muting state and the samples.
pub open spec fn lower_conceal_run(
    s0: LowerConceal,
    m0: MuteState,
    a: Analysis,
    first10: bool,
    n: int,
) -> (LowerConceal, MuteState, Seq<i32>)
    decreases n,
{
    if n <= 0 {
        (s0, m0, Seq::<i32>::empty())
    } else {
        let (st, m, fresh) = lower_conceal_run(s0, m0, a, first10, n - 1);
        let (st1, m1, y) = lower_conceal_step(st, m, a, first10, n - 1);
        (st1, m1, fresh.push(y))
    }
}

/// Extrapolated lower-band sample `k` of a frame from the state `st` and
/// the muting state `m`: the state after it, the muting state after it
/// and the sample.
pub open spec fn lower_conceal_step(st: LowerConceal, m: MuteState, a: Analysis, first10: bool, k: int) -> (
    LowerConceal,
    MuteState,
    i32,
) {
    let (e, ne, mem) = st;
    let t0 = a.t0 as int;
    let idx = if a.class == Class::Voiced {
        e.len() - t0
    } else if ne {
        e.len() - t0 + 1
    } else {
        e.len() - t0 - 1
    };
    let en = e[idx];
    let e1 = e.push(en);
    let e2 = if e1.len() > t0 + 2 {
        e1.drop_first()
    } else {
        e1
    };
    let ylpre = synthesis_spec(ints(a.a@), en as int, ints(mem));
    let m1 = lower_mute_step(m, muting_params_spec(a.class), first10, k);
    let y = mult_r_spec(m1.g as int, ylpre) as i32;
    let mem1 = seq![y, mem[0], mem[1], mem[2], mem[3], mem[4], mem[5], mem[6]];
    ((e2, !ne, mem1), m1, y)
}

/// The residual `e(-289 .. -1)` of the lower-band history `z` through
/// the LP inverse filter `a`.
pub open spec fn residual_hist_spec(z: Seq<i32>, a: Seq<int>) -> Seq<int> {
    Seq::new(
        E_HISTORY as nat,
        |k: int| residual_spec(a, z[8 + k] as int, Seq::new(8, |i: int| z[8 + k - 1 - i] as int)),
    )
}

/// The pre-processing high-pass filter over the first `n` samples of
/// `x`: the outputs, the last input and the last output.
pub open spec fn hpre_run(x: Seq<i32>, n: int) -> (Seq<int>, int, int)
    decreases n,
{
    if n <= 0 {
        (Seq::<int>::empty(), 0, 0)
    } else {
        let (o, pi, po) = hpre_run(x, n - 1);
        let y = hpre_spec(x[n - 1] as int, pi, po);
        (o.push(y), x[n - 1] as int, y)
    }
}

/// `r` is the analysis of the first erased frame on the lower-band
/// history `z` with log scale factors `nbl` and `nbh`: the LP
/// coefficients of the last 10 ms; the pitch delay and correlation of
/// the pre-processed last 36 ms; voiced when the correlation passes
/// 0.7 and the higher band is not the stronger one, the V/UV transition
/// when it is, weakly voiced otherwise; unvoiced at 20 or more zero
/// crossings in the last 10 ms (with the delay doubled below 32);
/// transient when a non-voiced frame's residual has a peak in its last
/// period; the delay made odd for every class but voiced.
pub open spec fn analysis_of(z: Seq<i32>, nbl: int, nbh: int, r: Analysis) -> bool {
    let a = lp_analysis_spec(ints(z.subrange(217, 297)));
    let zlpre = hpre_run(z.subrange(9, 297), 288).0;
    let ltp = ltp_spec(zlpre, TDS_SMALLER_PITCH_MARGIN_Q15 as int, REFINE_SMALLER_PITCH_MARGIN_Q15 as int);
    let zcr = crossings(z.subrange(216, 297), 81);
    let c1 = if ltp.1 > RMAX_VOICED_Q15 {
        if nbh > nbl {
            Class::WeaklyVoiced
        } else {
            Class::Voiced
        }
    } else if nbh > nbl {
        Class::VuvTransition
    } else {
        Class::WeaklyVoiced
    };
    let c2 = if zcr >= 20 {
        Class::Unvoiced
    } else {
        c1
    };
    let t1 = if zcr >= 20 && ltp.0 < 32 {
        2 * ltp.0
    } else {
        ltp.0
    };
    let c3 = if c2 != Class::Voiced && peaks_upto(residual_hist_spec(z, a), t1, t1) > 0 {
        Class::Transient
    } else {
        c2
    };
    let t2 = if c3 != Class::Voiced && t1 % 2 == 0 {
        t1 + 1
    } else {
        t1
    };
    &&& same_values(r.a@, a)
    &&& r.t0 == t2
    &&& r.class == c3
}

/// The extrapolation state an erasure run starts from: the repetition
/// period of the history's residual, an even first index, and the last
/// eight history samples, newest first, as synthesis memory.
pub open spec fn seed_spec(z: Seq<i32>, a: Analysis) -> LowerConceal {
    let rep = repetition_spec(residual_hist_spec(z, ints(a.a@)), a.t0 as int, a.class);
    (Seq::new(rep.len(), |i: int| rep[i] as i32), true, Seq::new(8, |i: int| z[ZL_HISTORY - 1 - i]))
}

/// The muting state after a frame's run: on the first erased 10 ms frame
/// the counter takes the frame's `80 inc_mute` at the end.
pub open spec fn lower_mute_after(m: MuteState, a: Analysis, first10: bool) -> MuteState {
    if first10 {
        MuteState { g: m.g, cnt: sat_count(m.cnt + 80 * muting_params_spec(a.class).inc_mute) as i32 }
    } else {
        m
    }
}

/// A concealed lower-band frame of `l` samples and its 80-sample
/// extension from the extrapolated samples `fresh`: a first erased frame
/// takes `l + 80` fresh samples; a further one starts with the previous
/// extension `extra`.
pub open spec fn lower_frame(fresh: Seq<i32>, extra: Seq<i32>, first: bool, l: int) -> (Seq<i32>, Seq<i32>) {
    if first {
        (fresh.take(l), fresh.subrange(l, l + 80))
    } else {
        (extra + fresh.take(l - 80), fresh.subrange(l - 80, l))
    }
}

impl PlcDecoder {
    /// The internal ranges hold.
    pub closed spec fn wf(self) -> bool {
        &&& self.dec.wf()
        &&& self.l == 80 || self.l == 160
        &&& self.zl_hist@.len() == ZL_HISTORY
        &&& all_in16(self.zl_hist@)
        &&& self.zh_hist@.len() == ZH_HISTORY
        &&& all_in16(self.zh_hist@)
        &&& self.mute_lb.wf()
        &&& self.mute_hb.wf()
        &&& all_in16(self.yl_extra@)
        &&& in16(self.hpost_in as int)
        &&& in16(self.hpost_out as int)
        &&& in16(self.pending_sl as int)
        &&& in16(self.pending_szl as int)
        &&& (self.prev_erased ==> self.analysis is Some && self.conceal is Some)
        &&& (self.analysis matches Some(a) ==> analysis_wf(a))
        &&& (self.conceal matches Some(c) ==> (self.analysis matches Some(a) && conceal_wf(c, a.t0 as int)))
    }

    /// The prediction handed over to the next decoded lower-band sample,
    /// if any.
    pub closed spec fn pending(self) -> Option<(i32, i32)> {
        if self.has_pending {
            Some((self.pending_sl, self.pending_szl))
        } else {
            None
        }
    }

    /// Sub-band frame length `L`.
    pub closed spec fn l_view(self) -> nat {
        self.l as nat
    }

    /// The ADPCM decoder inside.
    pub closed spec fn decoder_view(self) -> Decoder {
        self.dec
    }

    /// The lower-band history `zl(-297 .. -1)`, oldest first.
    pub closed spec fn lower_history(self) -> Seq<i32> {
        self.zl_hist@
    }

    /// The higher-band history `zh(-160 .. -1)`, oldest first.
    pub closed spec fn higher_history(self) -> Seq<i32> {
        self.zh_hist@
    }

    /// The lower-band samples of the last frame.
    pub closed spec fn last_lower_frame(self) -> Seq<i32> {
        self.zl_hist@.skip(ZL_HISTORY - self.l)
    }

    /// The higher-band samples of the last frame.
    pub closed spec fn last_higher_frame(self) -> Seq<i32> {
        self.zh_hist@.skip(ZH_HISTORY - self.l)
    }

    /// The higher-band muting counter.
    pub closed spec fn higher_mute_count(self) -> int {
        self.mute_hb.cnt as int
    }

    /// The higher-band muting state.
    pub closed spec fn higher_mute(self) -> MuteState {
        self.mute_hb
    }

    /// The higher-band post-filter memory (last input, last output).
    pub closed spec fn post_filter_memory(self) -> (i32, i32) {
        (self.hpost_in, self.hpost_out)
    }

    /// The lower-band extrapolation state of the erasure run, if any.
    pub closed spec fn lower_conceal(self) -> Option<LowerConceal> {
        match self.conceal {
            Some(c) => Some((c.e_recent@, c.next_even, c.mem@)),
            None => None,
        }
    }

    /// The lower-band muting state.
    pub closed spec fn lower_mute(self) -> MuteState {
        self.mute_lb
    }

    /// The lower-band cross-fade extension of the last concealed frame.
    pub closed spec fn extension(self) -> Seq<i32> {
        self.yl_extra@
    }

    /// The analysis of the erasure run in progress, if any.
    pub closed spec fn current_analysis(self) -> Option<Analysis> {
        self.analysis
    }

    /// The last frame was concealed.
    pub closed spec fn in_erasure_run(self) -> bool {
        self.prev_erased
    }

    /// Samples left in the higher-band post filter's hold.
    pub closed spec fn post_filter_hold(self) -> nat {
        self.post_hold as nat
    }

    /// The next good frame starts with the cross-fade.
    pub closed spec fn crossfade_pending(self) -> bool {
        self.xfade_pending
    }

    /// The first sample of the cross-fade extension.
    pub closed spec fn extension_head(self) -> i32 {
        self.yl_extra@[0]
    }

    /// No concealment is in progress or pending: no cross-fade, no post
    /// filter, no prediction hand-over.
    pub closed spec fn settled(self) -> bool {
        !self.xfade_pending && self.post_hold == 0 && !self.has_pending
    }

    /// The lower band is muted: the last frame was concealed, the muting
    /// counter has passed 320 and the cross-fade extension is silent.
    pub closed spec fn lower_muted(self) -> bool {
        &&& self.prev_erased
        &&& self.mute_lb.cnt >= 320
        &&& forall|i: int| 0 <= i < 80 ==> #[trigger] self.yl_extra@[i] == 0
    }

    /// The lower band is muted exactly when the last frame was concealed,
    /// its muting counter has reached 320 and the extension is silent.
    pub proof fn lemma_lower_muted_iff(self)
        ensures
            self.lower_muted() <==> (self.in_erasure_run() && self.lower_mute().cnt >= 320 && forall|i: int|
                0 <= i < 80 ==> #[trigger] self.extension()[i] == 0),
    {
        if self.lower_muted() {
            assert forall|i: int| 0 <= i < 80 implies #[trigger] self.extension()[i] == 0 by {
                assert(self.yl_extra@[i] == 0);
            }
        }
        if self.in_erasure_run() && self.lower_mute().cnt >= 320 && forall|i: int|
            0 <= i < 80 ==> #[trigger] self.extension()[i] == 0 {
            assert forall|i: int| 0 <= i < 80 implies #[trigger] self.yl_extra@[i] == 0 by {
                assert(self.extension()[i] == 0);
            }
        }
    }

    /// The part of the state a good frame changes.
    pub closed spec fn good_part(self) -> GoodPart {
        (self.dec, self.zl_hist@, self.zh_hist@, (self.hpost_in, self.hpost_out), self.post_hold as nat)
    }

    /// The first `n` octets of a good frame `o`.
    pub closed spec fn good_run(self, o: Seq<u8>, n: int) -> (GoodPart, Seq<i16>)
        decreases n,
    {
        if n <= 0 {
            (self.good_part(), Seq::<i16>::empty())
        } else {
            let (p, out) = self.good_run(o, n - 1);
            let pred = if n - 1 == 0 {
                self.pending()
            } else {
                None
            };
            let (p2, (a, b)) = good_step(p, o[n - 1], n - 1, pred, self.xfade_pending, self.yl_extra@);
            (p2, out + seq![a as i16, b as i16])
        }
    }

    /// A good frame `o`: the changed part of the state and the 16-bit
    /// PCM output.
    pub closed spec fn good_spec(self, o: Seq<u8>) -> (GoodPart, Seq<i16>) {
        self.good_run(o, o.len() as int)
    }

    /// A PLC decoder for `frame_samples` 16 kHz samples per frame (160 =
    /// 10 ms or 320 = 20 ms) in `mode`, at the reset condition.
    pub fn new(mode: Mode, frame_samples: usize) -> (r: Self)
        requires
            frame_samples == 160 || frame_samples == 320,
        ensures
            r.wf(),
            2 * r.l_view() == frame_samples,
            r.decoder_view() == Decoder::fresh_spec(mode),
            r.settled(),
    {
        let mut zl: Vec<i32> = Vec::new();
        let mut i: usize = 0;
        while i < ZL_HISTORY
            invariant
                i <= ZL_HISTORY,
                zl@.len() == i,
                forall|j: int| 0 <= j < i ==> #[trigger] zl@[j] == 0,
            decreases ZL_HISTORY - i,
        {
            zl.push(0);
            i = i + 1;
        }
        let mut zh: Vec<i32> = Vec::new();
        let mut i: usize = 0;
        while i < ZH_HISTORY
            invariant
                i <= ZH_HISTORY,
                zh@.len() == i,
                forall|j: int| 0 <= j < i ==> #[trigger] zh@[j] == 0,
            decreases ZH_HISTORY - i,
        {
            zh.push(0);
            i = i + 1;
        }
        let r = PlcDecoder {
            dec: Decoder::new(mode),
            l: frame_samples / 2,
            zl_hist: zl,
            zh_hist: zh,
            mute_lb: MuteState { g: Q15_ONE, cnt: 0 },
            mute_hb: MuteState { g: Q15_ONE, cnt: 0 },
            prev_erased: false,
            analysis: None,
            conceal: None,
            yl_extra: [0; 80],
            hpost_in: 0,
            hpost_out: 0,
            post_hold: 0,
            xfade_pending: false,
            has_pending: false,
            pending_sl: 0,
            pending_szl: 0,
        };
        proof {
            assert(all_in16(r.zl_hist@));
            assert(all_in16(r.zh_hist@));
            assert(all_in16(r.yl_extra@));
        }
        r
    }

    /// Sub-band frame length `L`.
    pub fn subband_frame_len(&self) -> (r: usize)
        ensures
            r == self.l_view(),
    {
        self.l
    }

    /// Number of 16 kHz samples per frame.
    pub fn frame_samples(&self) -> (r: usize)
        requires
            self.wf(),
        ensures
            r == 2 * self.l_view(),
    {
        self.l * 2
    }

    /// Shift `v` into the lower-band history.
    fn push_zl(&mut self, v: i32)
        requires
            old(self).zl_hist@.len() == ZL_HISTORY,
        ensures
            final(self).zl_hist@ == old(self).zl_hist@.drop_first().push(v),
            final(self).zh_hist@ == old(self).zh_hist@,
            final(self).dec == old(self).dec,
            final(self).l == old(self).l,
            final(self).mute_lb == old(self).mute_lb,
            final(self).mute_hb == old(self).mute_hb,
            final(self).prev_erased == old(self).prev_erased,
            final(self).analysis == old(self).analysis,
            final(self).conceal == old(self).conceal,
            final(self).yl_extra == old(self).yl_extra,
            final(self).hpost_in == old(self).hpost_in,
            final(self).hpost_out == old(self).hpost_out,
            final(self).post_hold == old(self).post_hold,
            final(self).xfade_pending == old(self).xfade_pending,
            final(self).has_pending == old(self).has_pending,
            final(self).pending_sl == old(self).pending_sl,
            final(self).pending_szl == old(self).pending_szl,
    {
        self.zl_hist.remove(0);
        self.zl_hist.push(v);
        proof {
            assert(self.zl_hist@ =~= old(self).zl_hist@.drop_first().push(v));
        }
    }

    /// Shift `v` into the higher-band history.
    fn push_zh(&mut self, v: i32)
        requires
            old(self).zh_hist@.len() == ZH_HISTORY,
        ensures
            final(self).zh_hist@ == old(self).zh_hist@.drop_first().push(v),
            final(self).zl_hist@ == old(self).zl_hist@,
            final(self).dec == old(self).dec,
            final(self).l == old(self).l,
            final(self).mute_lb == old(self).mute_lb,
            final(self).mute_hb == old(self).mute_hb,
            final(self).prev_erased == old(self).prev_erased,
            final(self).analysis == old(self).analysis,
            final(self).conceal == old(self).conceal,
            final(self).yl_extra == old(self).yl_extra,
            final(self).hpost_in == old(self).hpost_in,
            final(self).hpost_out == old(self).hpost_out,
            final(self).post_hold == old(self).post_hold,
            final(self).xfade_pending == old(self).xfade_pending,
            final(self).has_pending == old(self).has_pending,
            final(self).pending_sl == old(self).pending_sl,
            final(self).pending_szl == old(self).pending_szl,
    {
        self.zh_hist.remove(0);
        self.zh_hist.push(v);
        proof {
            assert(self.zh_hist@ =~= old(self).zh_hist@.drop_first().push(v));
        }
    }

    /// One sample of the higher-band post filter on its own memory.
    fn hpost_step(&mut self, uh: i32) -> (vh: i32)
        requires
            in16(uh as int),
            in16(old(self).hpost_in as int),
            in16(old(self).hpost_out as int),
        ensures
            vh as int == hpost_spec(uh as int, old(self).hpost_in as int, old(self).hpost_out as int),
            in16(vh as int),
            final(self).hpost_in == uh,
            final(self).hpost_out == vh,
            final(self).zl_hist == old(self).zl_hist,
            final(self).zh_hist == old(self).zh_hist,
            final(self).dec == old(self).dec,
            final(self).l == old(self).l,
            final(self).mute_lb == old(self).mute_lb,
            final(self).mute_hb == old(self).mute_hb,
            final(self).prev_erased == old(self).prev_erased,
            final(self).analysis == old(self).analysis,
            final(self).conceal == old(self).conceal,
            final(self).yl_extra == old(self).yl_extra,
            final(self).post_hold == old(self).post_hold,
            final(self).xfade_pending == old(self).xfade_pending,
            final(self).has_pending == old(self).has_pending,
            final(self).pending_sl == old(self).pending_sl,
            final(self).pending_szl == old(self).pending_szl,
    {
        let vh: i32 = crate::plc_analysis::hpost_step(uh, self.hpost_in, self.hpost_out);
        self.hpost_in = uh;
        self.hpost_out = vh;
        vh
    }

    /// Decode one good frame of `L` octets (two 16 kHz samples per
    /// octet), with the post-erasure cross-fade over its first 10 ms and
    /// the higher-band post filter while its hold lasts; muting is reset
    /// and any erasure run ends.
    pub fn decode_good_frame(&mut self, octets: &[u8]) -> (r: Vec<i16>)
        requires
            old(self).wf(),
            octets@.len() == old(self).l_view(),
        ensures
            final(self).wf(),
            (final(self).good_part(), r@) == old(self).good_spec(octets@),
            r@.len() == 2 * octets@.len(),
            final(self).l_view() == old(self).l_view(),
            old(self).settled() ==> final(self).settled(),
            final(self).lower_mute() == (MuteState { g: Q15_ONE, cnt: 0 }),
            final(self).higher_mute() == (MuteState { g: Q15_ONE, cnt: 0 }),
            !final(self).in_erasure_run(),
            final(self).current_analysis() is None,
            final(self).lower_conceal() is None,
            final(self).pending() is None,
            !final(self).crossfade_pending(),
            final(self).extension() == old(self).extension(),
    {
        let ghost s0: PlcDecoder = *self;
        let do_xfade: bool = self.xfade_pending;
        self.xfade_pending = false;
        let n: usize = octets.len();
        let mut out: Vec<i16> = Vec::new();
        let mut k: usize = 0;
        while k < n
            invariant
                k <= n,
                n == octets@.len() == s0.l,
                s0.wf(),
                self.wf(),
                do_xfade == s0.xfade_pending,
                !self.xfade_pending,
                self.l == s0.l,
                self.yl_extra == s0.yl_extra,
                self.mute_lb == s0.mute_lb,
                self.mute_hb == s0.mute_hb,
                self.prev_erased == s0.prev_erased,
                self.analysis == s0.analysis,
                self.conceal == s0.conceal,
                k > 0 ==> !self.has_pending,
                k == 0 ==> self.pending() == s0.pending(),
                (self.good_part(), out@) == s0.good_run(octets@, k as int),
                out@.len() == 2 * k,
                s0.post_hold == 0 ==> self.post_hold == 0,
            decreases n - k,
        {
            let pred: Option<(i32, i32)> = if self.has_pending {
                Some((self.pending_sl, self.pending_szl))
            } else {
                None
            };
            self.has_pending = false;
            let (xl, xh) = self.dec.subband_step_pred(octets[k], pred);
            let zl: i32 = if do_xfade && k < XFADE {
                let w_up: i32 = (k as i32 * Q15_ONE) / 79;
                let w_dn: i32 = Q15_ONE - w_up;
                proof {
                    assert(0 <= k * 32767 / 79 <= 32767) by (nonlinear_arith)
                        requires
                            k < 80,
                    ;
                    assert(in16(self.yl_extra@[k as int] as int));
                }
                let acc: i32 = crate::basicop::l_mult(w_up, xl);
                crate::basicop::round_fx(crate::basicop::l_mac(acc, w_dn, self.yl_extra[k]))
            } else {
                xl
            };
            let zh: i32 = if self.post_hold > 0 {
                self.post_hold = self.post_hold - 1;
                self.hpost_step(xh)
            } else {
                xh
            };
            self.push_zl(zl);
            self.push_zh(zh);
            let (a, b) = self.dec.synthesis_pcm16(zl, zh);
            out.push(a);
            out.push(b);
            proof {
                assert(out@ =~= s0.good_run(octets@, k as int).1 + seq![a, b]);
                assert(all_in16(self.zl_hist@));
                assert(all_in16(self.zh_hist@));
            }
            k = k + 1;
        }
        self.mute_lb.reset();
        self.mute_hb.reset();
        self.prev_erased = false;
        self.analysis = None;
        self.conceal = None;
        proof {
            assert(octets@.len() > 0);
        }
        out
    }

    /// Lower-band analysis of the first erased frame: LP analysis of the
    /// last 10 ms, pre-processing and open-loop pitch over the last 36 ms,
    /// then the classification from the pitch correlation, the two
    /// scale factors, the zero-crossing rate and the residual peaks; the
    /// pitch delay is doubled for short unvoiced pitches and made odd for
    /// every class but voiced.
    fn analyse_lower(&self) -> (r: Analysis)
        requires
            self.wf(),
        ensures
            analysis_wf(r),
            analysis_of(self.zl_hist@, self.dec.lower_state().nbl as int, self.dec.higher_state().nbl as int, r),
    {
        let mut last80: [i32; 80] = [0; 80];
        let mut k: usize = 0;
        while k < 80
            invariant
                k <= 80,
                self.wf(),
                forall|j: int| 0 <= j < k ==> in16(#[trigger] last80@[j] as int),
                forall|j: int| 0 <= j < k ==> #[trigger] last80@[j] == self.zl_hist@[217 + j],
            decreases 80 - k,
        {
            proof {
                assert(in16(self.zl_hist@[(ZL_HISTORY - 80 + k) as int] as int));
            }
            last80[k] = self.zl_hist[ZL_HISTORY - 80 + k];
            k = k + 1;
        }
        proof {
            assert(ints(last80@) =~= ints(self.zl_hist@.subrange(217, 297)));
        }
        let a: [i32; LP_ORDER] = crate::plc_analysis::lp_analysis(&last80);
        let ghost x: Seq<i32> = self.zl_hist@.subrange(9, 297);
        let mut zlpre: [i32; 288] = [0; 288];
        let mut prev_in: i32 = 0;
        let mut prev_out: i32 = 0;
        let mut k: usize = 0;
        while k < 288
            invariant
                k <= 288,
                self.wf(),
                in16(prev_in as int),
                in16(prev_out as int),
                forall|j: int| 0 <= j < k ==> in16(#[trigger] zlpre@[j] as int),
                x == self.zl_hist@.subrange(9, 297),
                ({
                    let run = hpre_run(x, k as int);
                    &&& run.0.len() == k
                    &&& prev_in as int == run.1
                    &&& prev_out as int == run.2
                    &&& forall|j: int| 0 <= j < k ==> #[trigger] zlpre@[j] as int == run.0[j]
                }),
            decreases 288 - k,
        {
            let xk: i32 = self.zl_hist[ZL_HISTORY - 288 + k];
            proof {
                assert(in16(self.zl_hist@[(ZL_HISTORY - 288 + k) as int] as int));
            }
            let y: i32 = crate::plc_analysis::hpre_step(xk, prev_in, prev_out);
            proof {
                assert(x[k as int] == xk);
            }
            prev_in = xk;
            prev_out = y;
            zlpre[k] = y;
            k = k + 1;
        }
        proof {
            assert(ints(zlpre@) =~= hpre_run(x, 288).0);
        }
        let (t0_raw, rmax) = crate::plc_analysis::ltp_analysis(&zlpre);
        let nbl: i32 = self.dec.lower_log_scale_factor();
        let nbh: i32 = self.dec.higher_log_scale_factor();
        let mut zhist: [i32; 81] = [0; 81];
        let mut k: usize = 0;
        while k < 81
            invariant
                k <= 81,
                self.wf(),
                forall|j: int| 0 <= j < k ==> #[trigger] zhist@[j] == self.zl_hist@[216 + j],
            decreases 81 - k,
        {
            zhist[k] = self.zl_hist[ZL_HISTORY - 81 + k];
            k = k + 1;
        }
        proof {
            assert(zhist@ =~= self.zl_hist@.subrange(216, 297));
        }
        let zcr: u32 = crate::plc_analysis::zero_crossing_rate(&zhist);
        let mut t0: usize = t0_raw;
        let mut class: Class = Class::WeaklyVoiced;
        if rmax > RMAX_VOICED_Q15 {
            class = Class::Voiced;
            if nbh > nbl {
                class = Class::WeaklyVoiced;
            }
        } else if nbh > nbl {
            class = Class::VuvTransition;
        }
        if zcr >= 20 {
            class = Class::Unvoiced;
            if t0 < 32 {
                t0 = t0 * 2;
            }
        }
        if class != Class::Voiced {
            let e_hist: Vec<i32> = self.residual_history(&a);
            proof {
                assert(ints(a@) =~= lp_analysis_spec(ints(self.zl_hist@.subrange(217, 297))));
                assert(ints(e_hist@) =~= residual_hist_spec(self.zl_hist@, ints(a@)));
            }
            if count_peaks(e_hist.as_slice(), t0) > 0 {
                class = Class::Transient;
            }
        }
        if class != Class::Voiced && t0 % 2 == 0 {
            t0 = t0 + 1;
        }
        Analysis { a, t0, class }
    }

    /// The residual `e(-289 .. -1)` of the lower-band history through
    /// `A(z)`.
    fn residual_history(&self, a: &[i32; LP_ORDER]) -> (e: Vec<i32>)
        requires
            self.wf(),
            all_in16(a@),
        ensures
            e@.len() == E_HISTORY,
            all_in16(e@),
            same_values(e@, residual_hist_spec(self.zl_hist@, ints(a@))),
    {
        let mut e: Vec<i32> = Vec::new();
        let mut k: usize = 0;
        while k < E_HISTORY
            invariant
                k <= E_HISTORY,
                self.wf(),
                all_in16(a@),
                e@.len() == k,
                all_in16(e@),
                forall|j: int| 0 <= j < k ==> #[trigger] e@[j] as int == residual_hist_spec(self.zl_hist@, ints(a@))[j],
            decreases E_HISTORY - k,
        {
            let base: usize = ZL_HISTORY - E_HISTORY + k;
            let mut past: [i32; LP_ORDER] = [0; LP_ORDER];
            let mut i: usize = 0;
            while i < LP_ORDER
                invariant
                    i <= LP_ORDER,
                    base == ZL_HISTORY - E_HISTORY + k,
                    k < E_HISTORY,
                    self.wf(),
                    forall|j: int| 0 <= j < i ==> in16(#[trigger] past@[j] as int),
                    forall|j: int| 0 <= j < i ==> #[trigger] past@[j] == self.zl_hist@[base - 1 - j],
                    forall|j: int| i <= j < LP_ORDER ==> #[trigger] past@[j] == 0,
                decreases LP_ORDER - i,
            {
                proof {
                    assert(in16(self.zl_hist@[(base - 1 - i) as int] as int));
                }
                past[i] = self.zl_hist[base - 1 - i];
                i = i + 1;
            }
            proof {
                assert(in16(self.zl_hist@[base as int] as int));
                assert(all_in16(past@));
            }
            let v: i32 = crate::plc_analysis::residual_step(a, self.zl_hist[base], &past);
            proof {
                assert(ints(past@) =~= Seq::new(8, |i: int| self.zl_hist@[8 + k - 1 - i] as int));
            }
            e.push(v);
            k = k + 1;
        }
        e
    }

    /// Extrapolate the lower band for one erased frame: the residual
    /// continued from the repetition period (with the `(-1)^n` jitter for
    /// classes other than voiced), the LP synthesis on the muted output,
    /// and the adaptive muting. Returns the frame `yl` and the 80-sample
    /// cross-fade extension; for a further erased frame the frame starts
    /// with the previous extension.
    fn synthesise_lower(&mut self, analysis: Analysis, first_erased: bool) -> (r: (Vec<i32>, [i32; 80]))
        requires
            old(self).wf(),
            analysis_wf(analysis),
            old(self).analysis == Some(analysis),
            old(self).conceal is Some,
            !first_erased ==> old(self).prev_erased,
        ensures
            final(self).wf(),
            r.0@.len() == old(self).l,
            all_in16(r.0@),
            all_in16(r.1@),
            final(self).dec == old(self).dec,
            final(self).l == old(self).l,
            final(self).zl_hist == old(self).zl_hist,
            final(self).zh_hist == old(self).zh_hist,
            final(self).mute_hb == old(self).mute_hb,
            final(self).prev_erased == old(self).prev_erased,
            final(self).analysis == old(self).analysis,
            final(self).conceal is Some,
            final(self).hpost_in == old(self).hpost_in,
            final(self).hpost_out == old(self).hpost_out,
            final(self).yl_extra == old(self).yl_extra,
            final(self).post_hold == old(self).post_hold,
            ({
                let count = if first_erased {
                    old(self).l + XFADE
                } else {
                    old(self).l as int
                };
                let first10 = first_erased && old(self).l == 80;
                let run = lower_conceal_run(
                    old(self).lower_conceal()->Some_0,
                    old(self).mute_lb,
                    analysis,
                    first10,
                    count,
                );
                &&& final(self).lower_conceal() == Some(run.0)
                &&& final(self).mute_lb == lower_mute_after(run.1, analysis, first10)
                &&& (r.0@, r.1@) == lower_frame(run.2, old(self).yl_extra@, first_erased, old(self).l as int)
            }),
            old(self).lower_muted() && !first_erased ==> {
                &&& final(self).mute_lb.cnt >= 320
                &&& forall|i: int| 0 <= i < old(self).l ==> #[trigger] r.0@[i] == 0
                &&& forall|i: int| 0 <= i < 80 ==> #[trigger] r.1@[i] == 0
            },
    {
        let l: usize = self.l;
        let p: MutingParams = analysis.class.muting_params();
        let t0: usize = analysis.t0;
        let count: usize = if first_erased {
            l + XFADE
        } else {
            l
        };
        let first10: bool = first_erased && l == 80;
        let ghost muted: bool = old(self).lower_muted() && !first_erased;
        let mut tmp: Option<ConcealState> = None;
        std::mem::swap(&mut tmp, &mut self.conceal);
        let mut st: ConcealState = match tmp {
            Some(c) => c,
            None => {
                proof {
                    assert(false);
                }
                ConcealState { e_recent: Vec::new(), next_even: true, mem: [0; 8] }
            },
        };
        let mut fresh: Vec<i32> = Vec::new();
        let mut n: usize = 0;
        let ghost s0: LowerConceal = (st.e_recent@, st.next_even, st.mem@);
        let ghost mute0: MuteState = self.mute_lb;
        proof {
            assert(Some(s0) == old(self).lower_conceal());
        }
        while n < count
            invariant
                ({
                    let run = lower_conceal_run(s0, mute0, analysis, first10, n as int);
                    &&& (st.e_recent@, st.next_even, st.mem@) == run.0
                    &&& self.mute_lb == run.1
                    &&& fresh@ == run.2
                }),
                p == muting_params_spec(analysis.class),
                n <= count,
                count == (if first_erased { l + XFADE } else { l as int }),
                l == old(self).l,
                l == 80 || l == 160,
                first10 == (first_erased && l == 80),
                t0 == analysis.t0,
                analysis_wf(analysis),
                p.wf(),
                conceal_wf(st, t0 as int),
                self.mute_lb.wf(),
                fresh@.len() == n,
                all_in16(fresh@),
                muted ==> self.mute_lb.cnt >= 320 && !first10,
                muted ==> forall|i: int| 0 <= i < n ==> #[trigger] fresh@[i] == 0,
                self.dec == old(self).dec,
                self.l == old(self).l,
                self.zl_hist == old(self).zl_hist,
                self.zh_hist == old(self).zh_hist,
                self.mute_hb == old(self).mute_hb,
                self.prev_erased == old(self).prev_erased,
                self.analysis == old(self).analysis,
                self.yl_extra == old(self).yl_extra,
                self.post_hold == old(self).post_hold,
                self.hpost_in == old(self).hpost_in,
                self.hpost_out == old(self).hpost_out,
                self.pending_sl == old(self).pending_sl,
                self.pending_szl == old(self).pending_szl,
                self.xfade_pending == old(self).xfade_pending,
                self.has_pending == old(self).has_pending,
            decreases count - n,
        {
            let yl_n: i32 = lower_step(&mut st, &mut self.mute_lb, &analysis, &p, first10, n);
            fresh.push(yl_n);
            proof {
                assert(all_in16(fresh@));
                let run = lower_conceal_run(s0, mute0, analysis, first10, n as int);
                assert(lower_conceal_run(s0, mute0, analysis, first10, n + 1) == ({
                    let (st1, m1, y) = lower_conceal_step(run.0, run.1, analysis, first10, n as int);
                    (st1, m1, run.2.push(y))
                }));
                if muted {
                    assert(yl_n == 0);
                }
            }
            n = n + 1;
        }
        if first10 {
            self.mute_lb.cnt = bump_count(self.mute_lb.cnt, 80 * p.inc_mute);
        }
        self.conceal = Some(st);
        let mut frame: Vec<i32> = Vec::new();
        let mut ex: [i32; 80] = [0; 80];
        if first_erased {
            let mut i: usize = 0;
            while i < l
                invariant
                    i <= l,
                    fresh@.len() == l + XFADE,
                    all_in16(fresh@),
                    frame@.len() == i,
                    forall|j: int| 0 <= j < i ==> #[trigger] frame@[j] == fresh@[j],
                decreases l - i,
            {
                frame.push(fresh[i]);
                i = i + 1;
            }
            let mut i: usize = 0;
            while i < XFADE
                invariant
                    i <= XFADE,
                    l == 80 || l == 160,
                    fresh@.len() == l + XFADE,
                    all_in16(fresh@),
                    forall|j: int| 0 <= j < i ==> #[trigger] ex@[j] == fresh@[l + j],
                decreases XFADE - i,
            {
                ex[i] = fresh[l + i];
                i = i + 1;
            }
            proof {
                assert(all_in16(frame@));
                assert(all_in16(ex@));
                assert(frame@ =~= fresh@.take(l as int));
                assert(ex@ =~= fresh@.subrange(l as int, l + 80));
            }
        } else {
            let mut i: usize = 0;
            while i < XFADE
                invariant
                    i <= XFADE,
                    frame@.len() == i,
                    forall|j: int| 0 <= j < i ==> #[trigger] frame@[j] == self.yl_extra@[j],
                decreases XFADE - i,
            {
                frame.push(self.yl_extra[i]);
                i = i + 1;
            }
            let mut i: usize = 0;
            while i < l - XFADE
                invariant
                    i <= l - XFADE,
                    l == 80 || l == 160,
                    fresh@.len() == l,
                    frame@.len() == XFADE + i,
                    forall|j: int| 0 <= j < XFADE ==> #[trigger] frame@[j] == self.yl_extra@[j],
                    forall|j: int| 0 <= j < i ==> #[trigger] frame@[XFADE + j] == fresh@[j],
                decreases l - XFADE - i,
            {
                frame.push(fresh[i]);
                i = i + 1;
            }
            let mut i: usize = 0;
            while i < XFADE
                invariant
                    i <= XFADE,
                    l == 80 || l == 160,
                    fresh@.len() == l,
                    forall|j: int| 0 <= j < i ==> #[trigger] ex@[j] == fresh@[l - XFADE + j],
                decreases XFADE - i,
            {
                ex[i] = fresh[l - XFADE + i];
                i = i + 1;
            }
            proof {
                assert forall|j: int| 0 <= j < l implies in16(#[trigger] frame@[j] as int) by {
                    if j < XFADE {
                        assert(frame@[j] == self.yl_extra@[j]);
                    } else {
                        assert(frame@[XFADE + (j - XFADE)] == fresh@[j - XFADE]);
                    }
                }
                assert(all_in16(ex@));
                let want = self.yl_extra@ + fresh@.take(l - 80);
                assert forall|j: int| 0 <= j < l implies #[trigger] frame@[j] == want[j] by {
                    if j < XFADE {
                        assert(frame@[j] == self.yl_extra@[j]);
                    } else {
                        assert(frame@[XFADE + (j - XFADE)] == fresh@[j - XFADE]);
                    }
                }
                assert(frame@ =~= want);
                assert(ex@ =~= fresh@.subrange(l - 80, l as int));
                if muted {
                    assert forall|j: int| 0 <= j < l implies #[trigger] frame@[j] == 0 by {
                        if j < XFADE {
                            assert(frame@[j] == self.yl_extra@[j]);
                        } else {
                            assert(frame@[XFADE + (j - XFADE)] == fresh@[j - XFADE]);
                        }
                    }
                }
            }
        }
        (frame, ex)
    }
}

impl PlcDecoder {
    /// Conceal one erased frame: on the first erased frame of a run the
    /// lower band is analysed (LP coefficients, pitch, class) and the
    /// repetition period seeded; the lower band is extrapolated and
    /// muted, the higher band repeated pitch-synchronously, muted and
    /// post-filtered; the ADPCM decoders take over the extrapolated
    /// state, and the frame goes out through the receive QMF as `2 L`
    /// samples of 16-bit PCM.
    pub fn conceal_erased_frame(&mut self) -> (r: Vec<i16>)
        requires
            old(self).wf(),
        ensures
            final(self).wf(),
            r@.len() == 2 * old(self).l_view(),
            final(self).l_view() == old(self).l_view(),
            old(self).lower_muted() ==> final(self).lower_muted() && forall|i: int|
                ZL_HISTORY - old(self).l_view() <= i < ZL_HISTORY ==> #[trigger] final(self).lower_history()[i] == 0,
            final(self).lower_history() == old(self).lower_history().skip(old(self).l_view() as int)
                + final(self).last_lower_frame(),
            final(self).higher_history() == old(self).higher_history().skip(old(self).l_view() as int)
                + final(self).last_higher_frame(),
            (final(self).decoder_view(), r@) == synth_run(
                handover_spec(old(self).decoder_view(), final(self).last_lower_frame(), final(self).higher_mute_count()),
                final(self).last_lower_frame(),
                final(self).last_higher_frame(),
                old(self).l_view() as int,
            ),
            final(self).pending() == Some((final(self).extension_head(), final(self).extension_head() >> 1u32)),
            final(self).post_filter_hold() == POST_FILTER_HOLD,
            final(self).crossfade_pending(),
            final(self).in_erasure_run(),
            old(self).in_erasure_run() ==> final(self).current_analysis() == old(self).current_analysis(),
            !old(self).in_erasure_run() ==> (final(self).current_analysis() matches Some(a) && analysis_of(
                old(self).lower_history(),
                old(self).decoder_view().lower_state().nbl as int,
                old(self).decoder_view().higher_state().nbl as int,
                a,
            )),
            final(self).current_analysis() matches Some(a) && ({
                let run = higher_conceal_run(
                    old(self).higher_history(),
                    higher_period(a),
                    muting_params_spec(a.class),
                    old(self).higher_mute(),
                    old(self).post_filter_memory(),
                    old(self).l_view() as int,
                );
                &&& final(self).last_higher_frame() == run.0.skip(ZH_HISTORY as int)
                &&& final(self).higher_mute() == run.1
                &&& final(self).post_filter_memory() == run.2
            }),
            final(self).current_analysis() matches Some(a) && ({
                let first = !old(self).in_erasure_run();
                let l = old(self).l_view() as int;
                let first10 = first && l == 80;
                let count = if first {
                    l + XFADE
                } else {
                    l
                };
                let s0 = if first {
                    seed_spec(old(self).lower_history(), a)
                } else {
                    old(self).lower_conceal()->Some_0
                };
                let run = lower_conceal_run(s0, old(self).lower_mute(), a, first10, count);
                let fr = lower_frame(run.2, old(self).extension(), first, l);
                &&& final(self).last_lower_frame() == fr.0
                &&& final(self).extension() == fr.1
                &&& final(self).lower_conceal() == Some(run.0)
                &&& final(self).lower_mute() == lower_mute_after(run.1, a, first10)
            }),
    {
        let l: usize = self.l;
        let first_erased: bool = !self.prev_erased;
        if first_erased {
            let analysis: Analysis = self.analyse_lower();
            let e_hist: Vec<i32> = self.residual_history(&analysis.a);
            let e_recent: Vec<i32> = build_repetition_period(&analysis, e_hist.as_slice());
            let mut mem: [i32; 8] = [0; 8];
            let mut i: usize = 0;
            while i < 8
                invariant
                    i <= 8,
                    self.wf(),
                    forall|j: int| 0 <= j < i ==> in16(#[trigger] mem@[j] as int),
                    forall|j: int| 0 <= j < i ==> #[trigger] mem@[j] == self.zl_hist@[ZL_HISTORY - 1 - j],
                decreases 8 - i,
            {
                proof {
                    assert(in16(self.zl_hist@[(ZL_HISTORY - 1 - i) as int] as int));
                }
                mem[i] = self.zl_hist[ZL_HISTORY - 1 - i];
                i = i + 1;
            }
            proof {
                assert(all_in16(mem@));
                assert forall|j: int| 0 <= j < e_recent@.len() implies in16(#[trigger] e_recent@[j] as int) by {
                    let e = ints(e_hist@);
                    let sp = repetition_spec(e, analysis.t0 as int, analysis.class);
                    assert(e_recent@[j] as int == sp[j]);
                    if j == 0 {
                        assert(in16(e_hist@[E_HISTORY - analysis.t0 - 1] as int));
                    } else {
                        lemma_limited_in16(e, E_HISTORY - analysis.t0 - 1 + j, analysis.t0 as int, analysis.class);
                    }
                }
            }
            proof {
                let rep = repetition_spec(residual_hist_spec(self.zl_hist@, ints(analysis.a@)), analysis.t0 as int, analysis.class);
                assert(ints(e_hist@) =~= residual_hist_spec(self.zl_hist@, ints(analysis.a@)));
                assert(e_recent@ =~= Seq::new(rep.len(), |i: int| rep[i] as i32));
                assert(mem@ =~= Seq::new(8, |i: int| self.zl_hist@[ZL_HISTORY - 1 - i]));
            }
            self.conceal = Some(ConcealState { e_recent, next_even: true, mem });
            self.analysis = Some(analysis);
            proof {
                assert(self.lower_conceal() == Some(seed_spec(old(self).zl_hist@, analysis)));
            }
        }
        let analysis: Analysis = match self.analysis {
            Some(a) => a,
            None => {
                proof {
                    assert(false);
                }
                Analysis { a: [0; 8], t0: 3, class: Class::Voiced }
            },
        };
        let ghost muted: bool = old(self).lower_muted();
        let (yl, yl_extra) = self.synthesise_lower(analysis, first_erased);
        let ghost conceal_after: Option<ConcealState> = self.conceal;
        let ghost mute_lb_after: MuteState = self.mute_lb;

        // Higher band: pitch-synchronous repetition, muted and
        // post-filtered.
        let th: usize = if analysis.class == Class::Voiced {
            analysis.t0
        } else {
            80
        };
        let p: MutingParams = analysis.class.muting_params();
        let mut ring: Vec<i32> = Vec::new();
        let mut i: usize = 0;
        while i < ZH_HISTORY
            invariant
                i <= ZH_HISTORY,
                self.wf(),
                ring@.len() == i,
                all_in16(ring@),
                forall|j: int| 0 <= j < i ==> #[trigger] ring@[j] == self.zh_hist@[j],
            decreases ZH_HISTORY - i,
        {
            proof {
                assert(in16(self.zh_hist@[i as int] as int));
            }
            ring.push(self.zh_hist[i]);
            i = i + 1;
        }
        let mut yh: Vec<i32> = Vec::new();
        let mut n: usize = 0;
        let ghost r0: Seq<i32> = ring@;
        let ghost m0: MuteState = self.mute_hb;
        let ghost mem0: (i32, i32) = (self.hpost_in, self.hpost_out);
        proof {
            assert(r0 =~= old(self).zh_hist@);
        }
        while n < l
            invariant
                n <= l,
                l == self.l,
                self.wf(),
                p.wf(),
                p == muting_params_spec(analysis.class),
                th == higher_period(analysis),
                3 <= th <= 143,
                r0.len() == ZH_HISTORY,
                ({
                    let run = higher_conceal_run(r0, th as int, p, m0, mem0, n as int);
                    &&& ring@ == run.0
                    &&& self.mute_hb == run.1
                    &&& (self.hpost_in, self.hpost_out) == run.2
                }),
                yh@ == ring@.skip(ZH_HISTORY as int),
                self.analysis == Some(analysis),
                !first_erased ==> old(self).analysis == Some(analysis),
                self.prev_erased == old(self).prev_erased,
                self.conceal == conceal_after,
                self.mute_lb == mute_lb_after,
                ring@.len() == ZH_HISTORY + n,
                all_in16(ring@),
                yh@.len() == n,
                all_in16(yh@),
                self.analysis is Some && self.conceal is Some,
                self.zl_hist == old(self).zl_hist,
                self.zh_hist == old(self).zh_hist,
                self.dec == old(self).dec,
                muted ==> self.lower_muted(),
            decreases l - n,
        {
            let idx: usize = ring.len() - th;
            let sample: i32 = ring[idx];
            proof {
                assert(in16(ring@[idx as int] as int));
            }
            let g: i32 = self.mute_hb.step_general(&p);
            let muted_h: i32 = crate::basicop::mult_r(g, sample);
            let vh: i32 = self.hpost_step(muted_h);
            yh.push(vh);
            ring.push(vh);
            proof {
                assert(all_in16(yh@));
                assert(all_in16(ring@));
                assert(yh@ =~= ring@.skip(ZH_HISTORY as int));
            }
            n = n + 1;
        }
        self.post_hold = POST_FILTER_HOLD;

        // ADPCM hand-over of both sub-bands.
        let reset_scale: bool = self.mute_hb.cnt > 160;
        proof {
            assert(in16(yl@[l - 1] as int));
            assert(in16(yl@[l - 2] as int));
            assert(in16(yl_extra@[0] as int));
        }
        let y1: i32 = yl[l - 1];
        let y2: i32 = yl[l - 2];
        let x0: i32 = yl_extra[0];
        proof {
            assert(in16(y1 as int) ==> in16((y1 >> 1) as int)) by (bit_vector);
            assert(in16(y2 as int) ==> in16((y2 >> 1) as int)) by (bit_vector);
            assert(in16(x0 as int) ==> in16((x0 >> 1) as int)) by (bit_vector);
        }
        let ghost d0: Decoder = self.dec;
        self.dec.conceal_lower(y1 >> 1, y2 >> 1, y1, reset_scale);
        self.has_pending = true;
        self.pending_sl = x0;
        self.pending_szl = x0 >> 1;
        self.dec.conceal_higher(reset_scale);
        let ghost dh: Decoder = self.dec;
        let ghost mh: MuteState = self.mute_hb;
        let ghost old_mem: (i32, i32) = (self.hpost_in, self.hpost_out);
        let ghost z0: Seq<i32> = self.zl_hist@;
        let ghost h0: Seq<i32> = self.zh_hist@;
        proof {
            assert(dh == handover_spec(d0, yl@, self.mute_hb.cnt as int));
        }

        // Histories and the receive QMF.
        let mut out: Vec<i16> = Vec::new();
        let mut n: usize = 0;
        while n < l
            invariant
                n <= l,
                l == self.l,
                l == 80 || l == 160,
                self.wf(),
                z0.len() == ZL_HISTORY,
                h0.len() == ZH_HISTORY,
                self.zl_hist@ == z0.skip(n as int) + yl@.take(n as int),
                self.zh_hist@ == h0.skip(n as int) + yh@.take(n as int),
                (self.dec, out@) == synth_run(dh, yl@, yh@, n as int),
                self.mute_hb == mh,
                self.conceal == conceal_after,
                self.mute_lb == mute_lb_after,
                self.hpost_in == old_mem.0 && self.hpost_out == old_mem.1,
                self.analysis == Some(analysis),
                self.prev_erased == old(self).prev_erased || first_erased,
                self.has_pending && self.pending_sl == x0 && self.pending_szl == x0 >> 1,
                self.post_hold == POST_FILTER_HOLD,
                yl@.len() == l,
                all_in16(yl@),
                yh@.len() == l,
                all_in16(yh@),
                out@.len() == 2 * n,
                all_in16(yl_extra@),
                self.analysis is Some && self.conceal is Some,
                muted ==> forall|i: int| 0 <= i < 80 ==> #[trigger] yl_extra@[i] == 0,
                muted ==> forall|i: int| 0 <= i < l ==> #[trigger] yl@[i] == 0,
                muted ==> forall|i: int| ZL_HISTORY - n <= i < ZL_HISTORY ==> #[trigger] self.zl_hist@[i] == 0,
                muted ==> self.mute_lb.cnt >= 320 && self.prev_erased,
            decreases l - n,
        {
            let zl: i32 = yl[n];
            let zh: i32 = yh[n];
            proof {
                assert(in16(zl as int));
                assert(in16(zh as int));
            }
            self.push_zl(zl);
            self.push_zh(zh);
            let (a, b) = self.dec.synthesis_pcm16(zl, zh);
            out.push(a);
            out.push(b);
            proof {
                assert(all_in16(self.zl_hist@));
                assert(all_in16(self.zh_hist@));
                assert(self.zl_hist@ =~= z0.skip(n + 1) + yl@.take(n + 1));
                assert(self.zh_hist@ =~= h0.skip(n + 1) + yh@.take(n + 1));
                assert(out@ =~= synth_run(dh, yl@, yh@, n as int).1 + seq![a, b]);
            }
            n = n + 1;
        }
        proof {
            assert(yl@.take(l as int) =~= yl@);
            assert(yh@.take(l as int) =~= yh@);
            assert(self.zl_hist@.skip(ZL_HISTORY - l) =~= yl@);
            assert(self.zh_hist@.skip(ZH_HISTORY - l) =~= yh@);
        }
        self.yl_extra = yl_extra;
        self.prev_erased = true;
        self.xfade_pending = true;
        out
    }
}

/// Once the lower-band muting counter has reached 320, every further
/// extrapolated lower-band sample of a consecutive erased frame (or of
/// any 20 ms frame) is silent, and the counter stays at or above 320.
pub proof fn lemma_silent_once_counted(st: LowerConceal, m: MuteState, a: Analysis, k: int)
    requires
        m.wf(),
        m.cnt >= 320,
    ensures
        lower_conceal_step(st, m, a, false, k).2 == 0,
        lower_conceal_step(st, m, a, false, k).1.cnt >= 320,
        lower_conceal_step(st, m, a, false, k).1.wf(),
{
    let p = muting_params_spec(a.class);
    assert(p.wf());
    lemma_muted_after_320(m, p);
    lemma_muting_monotone(m, p);
}

/// The higher band of an erased frame repeats its history pitch-
/// synchronously: for a voiced analysis each new sample is built (muted,
/// then post-filtered) from the sample `T0` back in the history followed
/// by what was already concealed; for every other class from the sample
/// 80 back (10 ms).
pub proof fn lemma_higher_band_repetition_period(
    ring: Seq<i32>,
    a: Analysis,
    m: MuteState,
    mem: (i32, i32),
    n: nat,
)
    ensures
        ({
            let p = muting_params_spec(a.class);
            let before = higher_conceal_run(ring, higher_period(a), p, m, mem, n as int);
            let after = higher_conceal_run(ring, higher_period(a), p, m, mem, (n + 1) as int);
            let back: int = if a.class == Class::Voiced {
                a.t0 as int
            } else {
                80
            };
            &&& before.0.len() == ring.len() + n
            &&& after.1 == before.1.step_general_spec(p)
            &&& a.class == Class::Voiced ==> back == a.t0
            &&& after.0 == before.0.push(
                hpost_spec(
                    mult_r_spec(after.1.g as int, before.0[ring.len() + n - back] as int),
                    before.2.0 as int,
                    before.2.1 as int,
                ) as i32,
            )
        }),
    decreases n,
{
    if n > 0 {
        lemma_higher_band_repetition_period(ring, a, m, mem, (n - 1) as nat);
    }
}

/// The post-erasure cross-fade runs from the concealed signal to the
/// decoded one: its first sample is the extension sample and its last
/// (the 80th) is the decoded sample, for samples of at most 15 bits.
pub proof fn lemma_crossfade_ends(xl: int, e: int)
    ensures
        -16383 <= e <= 16384 ==> xfade_spec(0, xl, e) == e,
        -16383 <= xl <= 16384 ==> xfade_spec(79, xl, e) == xl,
{
    assert(0 * 32767 / 79 == 0);
    assert(79 * 32767 / 79 == 32767);
    assert(2 * 0 * xl == 0 && 2 * 32767 * e == 65534 * e) by (nonlinear_arith);
    assert(2 * 32767 * xl == 65534 * xl && 2 * (32767 - 32767) * e == 0) by (nonlinear_arith);
    if -16383 <= e <= 16384 {
        assert((65534 * e + 32768) / 65536 == e) by (nonlinear_arith)
            requires
                -16383 <= e <= 16384,
        ;
    }
    if -16383 <= xl <= 16384 {
        assert((65534 * xl + 32768) / 65536 == xl) by (nonlinear_arith)
            requires
                -16383 <= xl <= 16384,
        ;
    }
}

/// The first good frame after an erasure starts on the concealed
/// extension and ends its cross-fade on the decoded signal: with the
/// cross-fade on, lower-band sample 0 entering the history is the
/// extension's first sample and sample 79 is the decoded sample.
pub proof fn lemma_crossfade_in_good_frame(
    p: GoodPart,
    octet: u8,
    pred: Option<(i32, i32)>,
    extra: Seq<i32>,
)
    requires
        extra.len() == 80,
        -16383 <= extra[0] <= 16384,
    ensures
        good_step(p, octet, 0, pred, true, extra).0.1.last() == extra[0],
        ({
            let xl = p.0.pred_step_spec(octet, pred).1.0;
            -16383 <= xl <= 16384 ==> good_step(p, octet, 79, pred, true, extra).0.1.last() == xl
        }),
{
    let xl = p.0.pred_step_spec(octet, pred).1.0;
    lemma_crossfade_ends(xl, extra[79] as int);
    lemma_crossfade_ends(xl, extra[0] as int);
}

/// The lower-band residual is continued from the repetition window: a
/// voiced frame repeats the residual exactly `T0` back; every other
/// class alternates between `T0 - 1` and `T0 + 1` back, sample by
/// sample (the `(-1)^n` jitter), starting from `T0 - 1`.
pub proof fn lemma_residual_repetition_offsets(st: LowerConceal, m: MuteState, a: Analysis, first10: bool, k: int)
    requires
        3 <= a.t0,
        a.t0 + 1 <= st.0.len() <= a.t0 + 2,
    ensures
        ({
            let next = lower_conceal_step(st, m, a, first10, k);
            let e = st.0;
            let t0 = a.t0 as int;
            &&& next.0.1 == !st.1
            &&& a.class == Class::Voiced ==> next.0.0.last() == e[e.len() - t0]
            &&& a.class != Class::Voiced && st.1 ==> next.0.0.last() == e[e.len() - (t0 - 1)]
            &&& a.class != Class::Voiced && !st.1 ==> next.0.0.last() == e[e.len() - (t0 + 1)]
        }),
{
}

/// The voicing decision of the first erased frame: with a pitch
/// correlation above 0.7, a lower band at least as strong as the higher
/// one and fewer than 20 zero crossings the frame is voiced, with the
/// pitch delay kept as found; with a stronger higher band, or a
/// correlation at or below 0.7, it is not voiced; every class but voiced
/// gets an odd delay.
pub proof fn lemma_voicing_decision(z: Seq<i32>, nbl: int, nbh: int, r: Analysis)
    requires
        analysis_of(z, nbl, nbh, r),
    ensures
        ({
            let zlpre = hpre_run(z.subrange(9, 297), 288).0;
            let ltp = ltp_spec(zlpre, TDS_SMALLER_PITCH_MARGIN_Q15 as int, REFINE_SMALLER_PITCH_MARGIN_Q15 as int);
            let zcr = crossings(z.subrange(216, 297), 81);
            &&& ltp.1 > RMAX_VOICED_Q15 && nbh <= nbl && zcr < 20 ==> r.class == Class::Voiced && r.t0 == ltp.0
            &&& nbh > nbl ==> r.class != Class::Voiced
            &&& ltp.1 <= RMAX_VOICED_Q15 ==> r.class != Class::Voiced
            &&& zcr >= 20 ==> r.class == Class::Unvoiced || r.class == Class::Transient
            &&& r.class != Class::Voiced ==> r.t0 % 2 == 1
        }),
{
}

/// Without erasures the concealment decoder is the plain decoder: from a
/// settled state, a good frame gives exactly the 16-bit output of
/// [`Decoder::decode_pcm16`] on the same octets and leaves the ADPCM
/// decoder where it would leave it.
pub proof fn lemma_good_frames_are_plain(p: PlcDecoder, o: Seq<u8>)
    requires
        p.wf(),
        p.settled(),
    ensures
        p.good_spec(o).0.0 == p.decoder_view().decode_pcm16_spec(o).0,
        p.good_spec(o).1 == p.decoder_view().decode_pcm16_spec(o).1,
{
    lemma_good_run_plain(p, o, o.len() as int);
    assert(o.subrange(0, o.len() as int) =~= o);
}

/// The first `n` octets of a good frame from a settled state.
proof fn lemma_good_run_plain(p: PlcDecoder, o: Seq<u8>, n: int)
    requires
        p.wf(),
        p.settled(),
        0 <= n <= o.len(),
    ensures
        p.good_run(o, n).0.0 == p.decoder_view().decode_pcm16_spec(o.subrange(0, n)).0,
        p.good_run(o, n).1 == p.decoder_view().decode_pcm16_spec(o.subrange(0, n)).1,
        p.good_run(o, n).0.4 == 0,
    decreases n,
{
    if n > 0 {
        lemma_good_run_plain(p, o, n - 1);
        let s = o.subrange(0, n);
        assert(s.drop_last() =~= o.subrange(0, n - 1));
        assert(s.last() == o[n - 1]);
    }
}

/// A magnitude-limited residual sample is a 16-bit value.
proof fn lemma_limited_in16(e: Seq<int>, m: int, t0: int, class: Class)
    requires
        0 <= m < E_HISTORY,
        e.len() == E_HISTORY,
        forall|i: int| 0 <= i < E_HISTORY ==> in16(#[trigger] e[i]),
    ensures
        in16(limited(e, m, t0, class)),
{
    lemma_nbhd_max_range(e, m - t0, 5);
}

/// The neighbourhood maximum lies in `0 ..= 32767`.
proof fn lemma_nbhd_max_range(e: Seq<int>, c: int, k: int)
    ensures
        0 <= nbhd_max_upto(e, c, k) <= 32767,
    decreases k,
{
    if k > 0 {
        lemma_nbhd_max_range(e, c, k - 1);
    }
}

/// One extrapolated lower-band sample: the residual repetition, the LP
/// synthesis on the muted output memory and the muting step `n` of the
/// frame.
fn lower_step(
    st: &mut ConcealState,
    mute: &mut MuteState,
    analysis: &Analysis,
    p: &MutingParams,
    first10: bool,
    n: usize,
) -> (y: i32)
    requires
        analysis_wf(*analysis),
        conceal_wf(*old(st), analysis.t0 as int),
        old(mute).wf(),
        *p == muting_params_spec(analysis.class),
        p.wf(),
        n < 240,
    ensures
        conceal_wf(*final(st), analysis.t0 as int),
        final(mute).wf(),
        in16(y as int),
        ((final(st).e_recent@, final(st).next_even, final(st).mem@), *final(mute), y) == lower_conceal_step(
            (old(st).e_recent@, old(st).next_even, old(st).mem@),
            *old(mute),
            *analysis,
            first10,
            n as int,
        ),
        old(mute).cnt >= 320 && !first10 ==> y == 0 && final(mute).cnt >= 320,
{
    let t0: usize = analysis.t0;
    let len: usize = st.e_recent.len();
    let idx: usize = if analysis.class == Class::Voiced {
        len - t0
    } else if st.next_even {
        len - t0 + 1
    } else {
        len - t0 - 1
    };
    let e_n: i32 = st.e_recent[idx];
    proof {
        assert(in16(st.e_recent@[idx as int] as int));
    }
    let ghost e1: Seq<i32> = st.e_recent@.push(e_n);
    st.e_recent.push(e_n);
    st.next_even = !st.next_even;
    if st.e_recent.len() > t0 + 2 {
        st.e_recent.remove(0);
        proof {
            assert(st.e_recent@ =~= e1.drop_first());
        }
    }
    proof {
        assert(all_in16(st.e_recent@));
    }
    let ylpre: i32 = crate::plc_analysis::synthesis_step(&analysis.a, e_n, &st.mem);
    let ghost m0: MuteState = *mute;
    let g: i32 = if first10 {
        if n < 80 {
            mute.step_first10(p.fac1)
        } else {
            if n == 80 {
                mute.cnt = bump_count(mute.cnt, 80 * p.inc_mute);
            }
            mute.step_first10(p.cf10)
        }
    } else {
        mute.step_general(p)
    };
    proof {
        assert(*mute == lower_mute_step(m0, *p, first10, n as int));
    }
    let yl_n: i32 = crate::basicop::mult_r(g, ylpre);
    let m = st.mem;
    st.mem = [yl_n, m[0], m[1], m[2], m[3], m[4], m[5], m[6]];
    proof {
        assert(st.mem@ =~= seq![yl_n, m@[0], m@[1], m@[2], m@[3], m@[4], m@[5], m@[6]]);
        assert(all_in16(st.mem@));
        if m0.cnt >= 320 && !first10 {
            lemma_muted_after_320(m0, *p);
            assert(g == 0);
            assert(0 * (ylpre as int) == 0);
            assert(yl_n == 0);
        }
    }
    yl_n
}

/// A muting counter advanced by `inc`, held at `i32::MAX`.
fn bump_count(cnt: i32, inc: i32) -> (r: i32)
    requires
        cnt >= 0,
        0 <= inc <= 320,
    ensures
        r == sat_count(cnt + inc),
        r >= cnt,
{
    if cnt <= i32::MAX - inc {
        cnt + inc
    } else {
        i32::MAX
    }
}

} // verus!
