//! Digital test harness of Appendix II.
//!
//! Two configurations are defined (clause II.2):
//!
//! * **Configuration 1** (Figure II-4): the transmit QMF is bypassed and
//!   a test sequence drives the two sub-band ADPCM encoders directly;
//!   their outputs `I_L`, `I_H` and the reset / synchronisation signal
//!   `RSS` are packed into the 16-bit word `I#`.
//! * **Configuration 2** (Figure II-5): the receive QMF is bypassed and
//!   a test sequence drives the two sub-band ADPCM decoders directly;
//!   their outputs `R_L`, `R_H` and the valid-data indication are packed
//!   into the 16-bit words `RL#` / `RH#`.
//!
//! | Sub-block | Direction | Function                                  |
//! | --------- | --------- | ----------------------------------------- |
//! | INFA      | encoder ← | Split `X#` into `(XL, XH, RS)`.           |
//! | INFB      | encoder → | Pack `(IL, IH, RS)` into `I#`.            |
//! | INFC      | decoder ← | Split `I#` into `(ILR, IH, RS)`.          |
//! | INFD      | decoder → | Pack `(RL or RH, RS)` into `RL#` / `RH#`. |
//!
//! Words are handled as `i16`; their bit layout is that of the `u16`
//! with the same bits ([`u16_of`] / [`i16_of`]).

use vstd::prelude::*;

use crate::decoder::{lemma_fresh_decoder, lemma_subband_step_ranges, Decoder};
use crate::predictor::clamp15;
use crate::encoder::{lemma_fresh_states_agree, lemma_subband_lockstep, lemma_subband_step_wf, Encoder};

pub mod appendix_ii;

verus! {

// -----------------------------------------------------------------------
// Wire-format bit positions (clause II.2.3)
// -----------------------------------------------------------------------

/// Bit position of the reset / synchronisation signal `RSS` (and of the
/// valid-data indication `VI`): always the LSB of the 16-bit word.
pub const RSS_BIT_POSITION: u32 = 0;

/// Mask of the `RSS` / `VI` bit (`1 << RSS_BIT_POSITION`).
pub const RSS_MASK: u16 = 0x0001;

/// Bit offset of the 6-bit lower sub-band code-word inside `I#`
/// (INFB: `I = (IH << 6) + IL`, `I# = (I << 8) + RS`).
pub const I_HASH_IL_SHIFT: u32 = 8;

/// Mask of the lower sub-band code-word inside `I#` (`0x3F << 8`).
pub const I_HASH_IL_MASK: u16 = 0x3F00;

/// Bit offset of the 2-bit higher sub-band code-word inside `I#`.
pub const I_HASH_IH_SHIFT: u32 = 14;

/// Mask of the higher sub-band code-word inside `I#` (`0x3 << 14`).
pub const I_HASH_IH_MASK: u16 = 0xC000;

/// Bit offset of the reconstructed sample inside `RL#` / `RH#`
/// (INFD: `RLX = R << 1`, `RL# = RLX + RS`).
pub const RL_HASH_SAMPLE_SHIFT: u32 = 1;

// -----------------------------------------------------------------------
// Word model
// -----------------------------------------------------------------------

/// The 16-bit pattern of a word, read unsigned.
pub open spec fn u16_of(x: int) -> int {
    if x < 0 {
        x + 65536
    } else {
        x
    }
}

/// The signed word with the 16-bit pattern `w` (`0 <= w < 65536`).
pub open spec fn i16_of(w: int) -> int {
    if w >= 32768 {
        w - 65536
    } else {
        w
    }
}

/// INFB's `I#` as an unsigned pattern.
pub open spec fn infb_word(il: int, ih: int, rs: bool) -> int {
    if rs {
        1
    } else {
        ((ih % 4) * 64 + il % 64) * 256
    }
}

/// INFA on an `X#` word.
pub open spec fn infa_spec(x: i16) -> InfaOutput {
    InfaOutput { xl: (x as int / 2) as i32, xh: (x as int / 2) as i32, rs: x as int % 2 == 1 }
}

/// INFB on `(IL, IH, RS)`.
pub open spec fn infb_spec(il: u8, ih: u8, rs: bool) -> i16 {
    i16_of(infb_word(il as int, ih as int, rs)) as i16
}

/// INFC on an `I#` word.
pub open spec fn infc_spec(x: i16) -> InfcOutput {
    InfcOutput {
        ilr: ((u16_of(x as int) / 256) % 64) as u8,
        ih: (u16_of(x as int) / 16384) as u8,
        rs: u16_of(x as int) % 2 == 1,
    }
}

/// INFD on `(R, RS)`.
pub open spec fn infd_spec(r: i32, rs: bool) -> i16 {
    (if rs {
        1
    } else {
        2 * clamp15(r as int)
    }) as i16
}

/// The bit layouts of `X#` and `I#` on the encoder side, bit by bit.
proof fn lemma_encoder_word_layout()
    by (bit_vector)
    ensures
        ((0u16 << 8u16) | 1u16) == 1u16,
        forall|il: u8, ih: u8|
            #[trigger] (((((ih as u16 & 3u16) << 6u16) | (il as u16 & 63u16)) << 8u16) | 0u16)
                == ((ih % 4) * 64 + il % 64) * 256,
        forall|o: u8| #[trigger] (o & 63u8) == o % 64,
        forall|o: u8| #[trigger] ((o >> 6u8) & 3u8) == o / 64 % 4,
{
}

/// Reading a 16-bit pattern as a signed word and back.
proof fn lemma_word_sign(w: u16, x: i16)
    by (bit_vector)
    ensures
        (w as i16) as int == (if w >= 32768 {
            w - 65536
        } else {
            w as int
        }),
        (x as u16) as int == (if x < 0 {
            x + 65536
        } else {
            x as int
        }),
{
}

/// The bit layouts of `I#` and `RL#` on the decoder side, bit by bit.
proof fn lemma_decoder_word_layout()
    by (bit_vector)
    ensures
        forall|w: u16| (#[trigger] (w & 1u16) != 0) == (w % 2 == 1),
        forall|w: u16| #[trigger] ((w & 0x3F00u16) >> 8u32) as int == (w as int / 256) % 64,
        forall|w: u16| #[trigger] ((w & 0xC000u16) >> 14u32) as int == w as int / 16384,
        ((0u16 | 1u16) as i16) as int == 1,
        forall|r: i32|
            -16384 <= r <= 16383 ==> #[trigger] ((((r as u16) << 1u32) | 0u16) as i16) as int == 2
                * r,
{
}

// -----------------------------------------------------------------------
// INFA — encoder input adapter
// -----------------------------------------------------------------------

/// A Configuration-1 input word split by [`infa`].
#[derive(Debug, Clone, Copy, PartialEq, Eq, Structural)]
pub struct InfaOutput {
    /// Lower sub-band encoder input (the 15-bit sample).
    pub xl: i32,
    /// Higher sub-band encoder input; INFA sets `XH = XL`.
    pub xh: i32,
    /// Reset / synchronisation signal: when set the encoder is reset and
    /// the slot carries no data.
    pub rs: bool,
}

/// INFA: `RS = X# & 1`, `XL = XH = X# >> 1` (arithmetic shift, so the
/// 15-bit signed sample comes back from the upper 15 bits).
pub fn infa(x_hash: i16) -> (r: InfaOutput)
    ensures
        r == infa_spec(x_hash),
{
    let rs: bool = (x_hash as u16 & RSS_MASK) != 0;
    let xl: i32 = (x_hash >> 1) as i32;
    proof {
        assert(((x_hash as u16 & 1u16) != 0) == (x_hash as int % 2 == 1)) by (bit_vector);
        assert((x_hash >> 1i16) as int == x_hash as int / 2) by (bit_vector);
    }
    InfaOutput { xl, xh: xl, rs }
}

// -----------------------------------------------------------------------
// INFB — encoder output adapter
// -----------------------------------------------------------------------

/// INFB: `I = (IH << 6) + IL` (or `0` in an RSS slot), `I# = (I << 8) +
/// RS`. Only the six LSBs of `il` and the two LSBs of `ih` are used.
pub fn infb(il: u8, ih: u8, rs: bool) -> (r: i16)
    ensures
        r == infb_spec(il, ih, rs),
        r as int == i16_of(infb_word(il as int, ih as int, rs)),
{
    let i: u16 = if rs {
        0
    } else {
        ((ih as u16 & 0x3) << 6) | (il as u16 & 0x3F)
    };
    let rsv: u16 = if rs {
        1
    } else {
        0
    };
    let word: u16 = (i << 8) | rsv;
    proof {
        lemma_encoder_word_layout();
        lemma_word_sign(word, 0);
        if rs {
            assert(((0u16 << 8u16) | 1u16) == 1u16);
        } else {
            assert(((((ih as u16 & 3u16) << 6u16) | (il as u16 & 63u16)) << 8u16) | 0u16 == ((
            ih % 4) * 64 + il % 64) * 256);
        }
        assert((word as i16) as int == (if word >= 32768 {
            word - 65536
        } else {
            word as int
        }));
    }
    word as i16
}

// -----------------------------------------------------------------------
// INFC — decoder input adapter
// -----------------------------------------------------------------------

/// A Configuration-2 input word split by [`infc`].
#[derive(Debug, Clone, Copy, PartialEq, Eq, Structural)]
pub struct InfcOutput {
    /// Received lower sub-band code-word (6 bits).
    pub ilr: u8,
    /// Higher sub-band code-word (2 bits).
    pub ih: u8,
    /// Reset / synchronisation signal: when set the decoder is reset and
    /// the slot carries no data.
    pub rs: bool,
}

/// INFC: `RS = I# & 1`, `ILR = (I# >> 8) & 63`, `IH = I# >> 14`; every
/// other bit of `I#` is ignored.
pub fn infc(i_hash: i16) -> (r: InfcOutput)
    ensures
        r == infc_spec(i_hash),
        r.ilr < 64,
        r.ih < 4,
{
    let w: u16 = i_hash as u16;
    let rs: bool = (w & RSS_MASK) != 0;
    let ilr: u8 = ((w & I_HASH_IL_MASK) >> I_HASH_IL_SHIFT) as u8;
    let ih: u8 = ((w & I_HASH_IH_MASK) >> I_HASH_IH_SHIFT) as u8;
    proof {
        lemma_decoder_word_layout();
        lemma_word_sign(0, i_hash);
        assert(w as int == u16_of(i_hash as int));
        assert(((w & 1u16) != 0) == (w % 2 == 1));
        assert(((w & 0x3F00u16) >> 8u32) as int == (w as int / 256) % 64);
        assert(((w & 0xC000u16) >> 14u32) as int == w as int / 16384);
    }
    InfcOutput { ilr, ih, rs }
}

// -----------------------------------------------------------------------
// INFD — decoder output adapter
// -----------------------------------------------------------------------

/// INFD: `RL# = (R << 1) + RS`, with `R` first held to the 15-bit range
/// `-16384 ..= 16383` of the LIMIT blocks; in an RSS slot `RL# = 1`.
pub fn infd(r: i32, rs: bool) -> (w: i16)
    ensures
        w == infd_spec(r, rs),
        w as int == (if rs {
            1
        } else {
            2 * clamp15(r as int)
        }),
{
    let r: i32 = if r < -16384 {
        -16384
    } else if r > 16383 {
        16383
    } else {
        r
    };
    let rlx: u16 = if rs {
        0
    } else {
        (r as u16) << RL_HASH_SAMPLE_SHIFT
    };
    let rsv: u16 = if rs {
        1
    } else {
        0
    };
    proof {
        lemma_decoder_word_layout();
        if rs {
            assert(((0u16 | 1u16) as i16) as int == 1);
        } else {
            assert(((((r as u16) << 1u32) | 0u16) as i16) as int == 2 * r);
        }
    }
    (rlx | rsv) as i16
}

// -----------------------------------------------------------------------
// Configuration 1 / Configuration 2 streams
// -----------------------------------------------------------------------

/// One Configuration-1 slot: an RSS word resets the encoder and emits
/// the non-valid word; any other word drives the two sub-band encoders
/// and emits their code-words through INFB.
pub open spec fn config1_step(e: Encoder, w: i16) -> (Encoder, i16) {
    let a = infa_spec(w);
    if a.rs {
        (Encoder::fresh_spec(), infb_spec(0, 0, true))
    } else {
        let (e1, o) = e.subband_spec(a.xl as int, a.xh as int);
        (e1, infb_spec((o as int % 64) as u8, (o as int / 64 % 4) as u8, false))
    }
}

/// A Configuration-1 input sequence: the final encoder and the `I#`
/// words, one per input word.
pub open spec fn config1_spec(e: Encoder, input: Seq<i16>) -> (Encoder, Seq<i16>)
    decreases input.len(),
{
    if input.len() == 0 {
        (e, Seq::<i16>::empty())
    } else {
        let (e1, out) = config1_spec(e, input.drop_last());
        let (e2, w) = config1_step(e1, input.last());
        (e2, out.push(w))
    }
}

/// One Configuration-2 slot: an RSS word resets the decoder (keeping its
/// mode) and emits the non-valid word on both bands; any other word
/// drives the two sub-band decoders and emits `RL#`, `RH#` through INFD.
pub open spec fn config2_step(d: Decoder, w: i16) -> (Decoder, i16, i16) {
    let c = infc_spec(w);
    if c.rs {
        (Decoder::fresh_spec(d.mode_spec()), infd_spec(0, true), infd_spec(0, true))
    } else {
        let (d1, (rl, rh)) = d.subband_spec(c.ilr as int % 64, c.ih as int % 4);
        (d1, infd_spec(rl, false), infd_spec(rh, false))
    }
}

/// A Configuration-2 input sequence: the final decoder and the `RL#`
/// and `RH#` words, one each per input word.
pub open spec fn config2_spec(d: Decoder, input: Seq<i16>) -> (Decoder, Seq<i16>, Seq<i16>)
    decreases input.len(),
{
    if input.len() == 0 {
        (d, Seq::<i16>::empty(), Seq::<i16>::empty())
    } else {
        let (d1, rl, rh) = config2_spec(d, input.drop_last());
        let (d2, a, b) = config2_step(d1, input.last());
        (d2, rl.push(a), rh.push(b))
    }
}

/// Drive `encoder` with a Configuration-1 input sequence and return the
/// `I#` output sequence (Figure II-4), one word per input word.
pub fn run_configuration_1(encoder: &mut Encoder, x_hash_in: &[i16]) -> (r: Vec<i16>)
    requires
        old(encoder).wf(),
    ensures
        final(encoder).wf(),
        (*final(encoder), r@) == config1_spec(*old(encoder), x_hash_in@),
{
    let mut out: Vec<i16> = Vec::with_capacity(x_hash_in.len());
    let mut i: usize = 0;
    while i < x_hash_in.len()
        invariant
            i <= x_hash_in.len(),
            encoder.wf(),
            (*encoder, out@) == config1_spec(*old(encoder), x_hash_in@.take(i as int)),
        decreases x_hash_in.len() - i,
    {
        let a: InfaOutput = infa(x_hash_in[i]);
        proof {
            assert(x_hash_in@.take(i as int + 1).drop_last() == x_hash_in@.take(i as int));
        }
        if a.rs {
            encoder.reset();
            out.push(infb(0, 0, true));
        } else {
            let octet: u8 = encoder.encode_subband_pair(a.xl, a.xh);
            let il: u8 = octet & 0x3F;
            let ih: u8 = (octet >> 6) & 0x3;
            proof {
                lemma_encoder_word_layout();
                assert(octet & 63u8 == octet % 64);
                assert((octet >> 6u8) & 3u8 == octet / 64 % 4);
            }
            out.push(infb(il, ih, false));
        }
        i = i + 1;
    }
    assert(x_hash_in@.take(x_hash_in.len() as int) == x_hash_in@);
    out
}

/// The `RL#` / `RH#` output sequences of [`run_configuration_2`].
#[derive(Debug, Clone, PartialEq, Eq)]
pub struct Configuration2Output {
    /// `RL#` words: lower sub-band reconstructed signal and valid-data
    /// indication, packed by INFD.
    pub rl_hash: Vec<i16>,
    /// `RH#` words: higher sub-band reconstructed signal and valid-data
    /// indication, packed by INFD.
    pub rh_hash: Vec<i16>,
}

/// Drive `decoder` with a Configuration-2 input sequence and return the
/// `(RL#, RH#)` output sequences (Figure II-5), one word each per input
/// word.
pub fn run_configuration_2(decoder: &mut Decoder, i_hash_in: &[i16]) -> (r: Configuration2Output)
    requires
        old(decoder).wf(),
    ensures
        final(decoder).wf(),
        (*final(decoder), r.rl_hash@, r.rh_hash@) == config2_spec(*old(decoder), i_hash_in@),
{
    let mut rl_hash: Vec<i16> = Vec::with_capacity(i_hash_in.len());
    let mut rh_hash: Vec<i16> = Vec::with_capacity(i_hash_in.len());
    let mut i: usize = 0;
    while i < i_hash_in.len()
        invariant
            i <= i_hash_in.len(),
            decoder.wf(),
            (*decoder, rl_hash@, rh_hash@) == config2_spec(
                *old(decoder),
                i_hash_in@.take(i as int),
            ),
        decreases i_hash_in.len() - i,
    {
        let c: InfcOutput = infc(i_hash_in[i]);
        proof {
            assert(i_hash_in@.take(i as int + 1).drop_last() == i_hash_in@.take(i as int));
        }
        if c.rs {
            decoder.reset();
            rl_hash.push(infd(0, true));
            rh_hash.push(infd(0, true));
        } else {
            let (rl, rh) = decoder.decode_subband_pair(c.ilr, c.ih);
            rl_hash.push(infd(rl, false));
            rh_hash.push(infd(rh, false));
        }
        i = i + 1;
    }
    assert(i_hash_in@.take(i_hash_in.len() as int) == i_hash_in@);
    Configuration2Output { rl_hash, rh_hash }
}

// -----------------------------------------------------------------------
// Laws
// -----------------------------------------------------------------------

/// INFC inverts INFB: outside an RSS slot it recovers the two
/// code-words (cut to 6 and 2 bits), in an RSS slot the fields are zero.
pub proof fn lemma_infc_inverts_infb(il: u8, ih: u8, rs: bool)
    ensures
        infc_spec(infb_spec(il, ih, rs)) == (if rs {
            InfcOutput { ilr: 0, ih: 0, rs: true }
        } else {
            InfcOutput { ilr: (il % 64) as u8, ih: (ih % 4) as u8, rs: false }
        }),
{
    let w = infb_word(il as int, ih as int, rs);
    assert(0 <= w < 65536);
    assert(u16_of(i16_of(w)) == w);
    if !rs {
        let i = (ih % 4) * 64 + il % 64;
        assert(w == i * 256);
        assert(w / 256 == i);
        assert(w / 16384 == ih % 4);
    }
}

/// INFD keeps the sample and the valid-data indication apart: the LSB
/// of `RL#` is `RS`, and outside an RSS slot the upper 15 bits are the
/// sample held to the LIMIT range.
pub proof fn lemma_infd_fields(r: i32, rs: bool)
    ensures
        (infd_spec(r, rs) as int % 2 == 1) == rs,
        !rs ==> infd_spec(r, rs) as int / 2 == clamp15(r as int),
        rs ==> infd_spec(r, rs) == 1,
{
}

/// A Configuration-1 run emits one `I#` word per input word; each word's
/// RSS bit is that of its input word, and an RSS slot emits exactly the
/// non-valid word `0x0001`.
pub proof fn lemma_config1_slots(e: Encoder, input: Seq<i16>)
    ensures
        config1_spec(e, input).1.len() == input.len(),
        forall|i: int|
            0 <= i < input.len() ==> (u16_of(#[trigger] config1_spec(e, input).1[i] as int) % 2
                == 1) == (input[i] as int % 2 == 1),
        forall|i: int|
            0 <= i < input.len() && input[i] as int % 2 == 1 ==> #[trigger] config1_spec(
                e,
                input,
            ).1[i] == 1,
    decreases input.len(),
{
    if input.len() > 0 {
        lemma_config1_slots(e, input.drop_last());
        let (e1, out) = config1_spec(e, input.drop_last());
        let (e2, w) = config1_step(e1, input.last());
        let a = infa_spec(input.last());
        if !a.rs {
            let (e3, o) = e1.subband_spec(a.xl as int, a.xh as int);
            let ww = infb_word(o as int % 64, o as int / 64 % 4, false);
            assert(ww % 2 == 0 && 0 <= ww < 65536);
            assert(u16_of(i16_of(ww)) == ww);
        }
        assert forall|i: int| 0 <= i < input.len() - 1 implies #[trigger] config1_spec(e, input).1[i]
            == config1_spec(e, input.drop_last()).1[i] by {}
    }
}

/// An RSS word at the head of a Configuration-1 sequence makes the run
/// independent of the encoder it starts from.
pub proof fn lemma_config1_reset_forgets(e1: Encoder, e2: Encoder, input: Seq<i16>)
    requires
        input.len() > 0,
        input[0] as int % 2 == 1,
    ensures
        config1_spec(e1, input) == config1_spec(e2, input),
    decreases input.len(),
{
    if input.len() > 1 {
        assert(input.drop_last()[0] == input[0]);
        lemma_config1_reset_forgets(e1, e2, input.drop_last());
    } else {
        assert(input.drop_last().len() == 0);
        assert(input.last() == input[0]);
        assert(config1_spec(e1, input.drop_last()).1 == Seq::<i16>::empty());
        assert(config1_spec(e2, input.drop_last()).1 == Seq::<i16>::empty());
    }
}

/// A Configuration-2 run emits one `RL#` and one `RH#` word per input
/// word; each word's valid-data bit is the input word's RSS bit, an RSS
/// slot emits `0x0001` on both bands, and every other slot carries a
/// sample of the 15-bit range shifted up by one bit.
pub proof fn lemma_config2_slots(d: Decoder, input: Seq<i16>)
    ensures
        config2_spec(d, input).1.len() == input.len(),
        config2_spec(d, input).2.len() == input.len(),
        forall|i: int|
            0 <= i < input.len() ==> (#[trigger] config2_spec(d, input).1[i] as int % 2 == 1) == (
            u16_of(input[i] as int) % 2 == 1),
        forall|i: int|
            0 <= i < input.len() ==> (#[trigger] config2_spec(d, input).2[i] as int % 2 == 1) == (
            u16_of(input[i] as int) % 2 == 1),
        forall|i: int|
            0 <= i < input.len() && u16_of(input[i] as int) % 2 == 1 ==> #[trigger] config2_spec(
                d,
                input,
            ).1[i] == 1 && config2_spec(d, input).2[i] == 1,
    decreases input.len(),
{
    if input.len() > 0 {
        lemma_config2_slots(d, input.drop_last());
        let (d1, rl, rh) = config2_spec(d, input.drop_last());
        let c = infc_spec(input.last());
        if !c.rs {
            let (d3, (a, b)) = d1.subband_spec(c.ilr as int % 64, c.ih as int % 4);
            lemma_infd_fields(a, false);
            lemma_infd_fields(b, false);
        }
        lemma_infd_fields(0, true);
        assert forall|i: int| 0 <= i < input.len() - 1 implies #[trigger] config2_spec(d, input).1[i]
            == config2_spec(d, input.drop_last()).1[i] && config2_spec(d, input).2[i]
            == config2_spec(d, input.drop_last()).2[i] by {}
    }
}

/// An RSS word at the head of a Configuration-2 sequence makes the run
/// independent of the decoder state it starts from (only the mode
/// matters).
pub proof fn lemma_config2_reset_forgets(d1: Decoder, d2: Decoder, input: Seq<i16>)
    requires
        input.len() > 0,
        u16_of(input[0] as int) % 2 == 1,
        d1.mode_spec() == d2.mode_spec(),
    ensures
        config2_spec(d1, input) == config2_spec(d2, input),
    decreases input.len(),
{
    if input.len() > 1 {
        assert(input.drop_last()[0] == input[0]);
        lemma_config2_reset_forgets(d1, d2, input.drop_last());
    } else {
        assert(input.drop_last().len() == 0);
        assert(input.last() == input[0]);
        assert(config2_spec(d1, input.drop_last()) == (d1, Seq::<i16>::empty(), Seq::<i16>::empty()));
        assert(config2_spec(d2, input.drop_last()) == (d2, Seq::<i16>::empty(), Seq::<i16>::empty()));
    }
}

/// The full circuit of Appendix II: the `I#` words of a
/// Configuration-1 run fed to a Configuration-2 run keep the decoder's
/// sub-band predictors in the states of the encoder's local decoder,
/// from any common starting states, and keep both well formed.
pub proof fn lemma_configurations_lockstep(e: Encoder, d: Decoder, input: Seq<i16>)
    requires
        e.wf(),
        d.wf(),
        e.lower_state() == d.lower_state(),
        e.higher_state() == d.higher_state(),
    ensures
        ({
            let (e1, words) = config1_spec(e, input);
            let (d1, rl, rh) = config2_spec(d, words);
            &&& e1.wf()
            &&& d1.wf()
            &&& d1.mode_spec() == d.mode_spec()
            &&& e1.lower_state() == d1.lower_state()
            &&& e1.higher_state() == d1.higher_state()
        }),
    decreases input.len(),
{
    if input.len() > 0 {
        lemma_configurations_lockstep(e, d, input.drop_last());
        lemma_config1_slots(e, input.drop_last());
        let (e1, words) = config1_spec(e, input.drop_last());
        let (d1, rl, rh) = config2_spec(d, words);
        let (e2, w) = config1_step(e1, input.last());
        let all_words = config1_spec(e, input).1;
        assert(all_words == words.push(w));
        assert(all_words.drop_last() == words);
        let a = infa_spec(input.last());
        if a.rs {
            lemma_infc_inverts_infb(0, 0, true);
            lemma_fresh_states_agree(d.mode_spec());
            lemma_fresh_decoder(d.mode_spec());
        } else {
            let (e3, o) = e1.subband_spec(a.xl as int, a.xh as int);
            lemma_subband_step_wf(e1, a.xl as int, a.xh as int);
            lemma_infc_inverts_infb((o as int % 64) as u8, (o as int / 64 % 4) as u8, false);
            assert(o as int / 64 < 4);
            lemma_subband_lockstep(e1, d1, a.xl as int, a.xh as int);
            lemma_subband_step_ranges(d1, o as int % 64, o as int / 64 % 4);
        }
    }
}

} // verus!
