//! The artificial Configuration-2 input sequence of clause II.3.2.
//!
//! The sequence has 16384 slots. Each slot carries a 6-bit `ILR`
//! (an MSB from the eight periodic MSB sub-sequences of clause II.3.2.1
//! and a 5-bit LSB field from the 64 sub-sequences of Table II-4) and a
//! 2-bit `IH` (the same MSB sub-sequences and the eight LSB
//! sub-sequences of clause II.3.2.2). The `I#` stream packs them with
//! INFB; the `.COD` frame brackets that stream with 16 RSS-marker words
//! on each side (clause II.4.5.2).
//!
//! | # | MSB pattern | Period | Higher-band LSB          |
//! | - | ----------- | ------ | ------------------------ |
//! | 1 | `001`       | 3      | constant 1               |
//! | 2 | `11110000`  | 8      | sixteen 1s, sixteen 0s   |
//! | 3 | `1`         | 1      | constant 0               |
//! | 4 | `1100`      | 4      | eight 1s, eight 0s       |
//! | 5 | `10`        | 2      | constant 0               |
//! | 6 | `00000100`  | 8      | four 1s, four 0s         |
//! | 7 | `00101`     | 5      | constant 1               |
//! | 8 | `11000`     | 5      | two 1s, two 0s           |

use vstd::prelude::*;

use super::{infb, infb_spec, infc_spec, lemma_infc_inverts_infb, u16_of, InfcOutput};

verus! {

/// Number of slots of the artificial sequence (clause II.3.2).
pub const ARTIFICIAL_SEQUENCE_LEN: usize = 16_384;

/// Length in bits of each MSB / higher-band LSB sub-sequence.
pub const SUBSEQUENCE_LEN_BITS: usize = 2_048;

/// Number of MSB sub-sequences (clauses II.3.2.1, II.3.2.2).
pub const NUM_MSB_SUBSEQUENCES: usize = 8;

/// Number of 5-bit lower-band LSB sub-sequences (Table II-4).
pub const NUM_LOWER_LSB_SUBSEQUENCES: usize = 64;

/// Length in values of each Table II-4 sub-sequence.
pub const LOWER_LSB_SUBSEQUENCE_LEN: usize = 256;

/// Number of 1-bit higher-band LSB sub-sequences (clause II.3.2.2).
pub const NUM_HIGHER_LSB_SUBSEQUENCES: usize = 8;

/// Number of RSS-marker words before and after the payload of a `.COD`
/// frame (clause II.4.5.2).
pub const COD_RSS_MARKER_WORDS: usize = 16;

/// `1` for true, `0` for false.
pub open spec fn flag(b: bool) -> int {
    if b {
        1
    } else {
        0
    }
}

/// Bit `within` of MSB sub-sequence `sub` (0-based).
pub open spec fn msb_pattern(sub: int, within: int) -> int {
    if sub == 0 {
        flag(within % 3 == 2)
    } else if sub == 1 {
        flag(within % 8 < 4)
    } else if sub == 2 {
        1
    } else if sub == 3 {
        flag(within % 4 < 2)
    } else if sub == 4 {
        flag(within % 2 == 0)
    } else if sub == 5 {
        flag(within % 8 == 5)
    } else if sub == 6 {
        flag(within % 5 == 2 || within % 5 == 4)
    } else {
        flag(within % 5 < 2)
    }
}

/// The MSB at slot `n` (the same for both sub-bands).
pub open spec fn msb_spec(n: int) -> int {
    msb_pattern(n / 2048, n % 2048)
}

/// The higher sub-band LSB at slot `n`.
pub open spec fn higher_lsb_spec(n: int) -> int {
    let sub = n / 2048;
    let within = n % 2048;
    if sub == 0 || sub == 6 {
        1
    } else if sub == 2 || sub == 4 {
        0
    } else if sub == 1 {
        flag(within % 32 < 16)
    } else if sub == 3 {
        flag(within % 16 < 8)
    } else if sub == 5 {
        flag(within % 8 < 4)
    } else {
        flag(within % 4 < 2)
    }
}

/// Value `within` of Table II-4 sub-sequence `k` (1-based): odd `k` is
/// the constant `31 - (k - 1) / 2`; even `k` alternates sixteen values
/// `v = 31 - (k - 2) / 2` with sixteen `v - 1`; sub-sequence 64
/// alternates sixteen 0s with sixteen 3s.
pub open spec fn lsb5_pattern(k: int, within: int) -> int {
    if k == 64 {
        if within % 32 < 16 {
            0
        } else {
            3
        }
    } else if k % 2 == 1 {
        31 - (k - 1) / 2
    } else if within % 32 < 16 {
        31 - (k - 2) / 2
    } else {
        31 - (k - 2) / 2 - 1
    }
}

/// The lower sub-band 5-bit LSB field at slot `n`.
pub open spec fn lsb5_spec(n: int) -> int {
    lsb5_pattern(n / 256 + 1, n % 256)
}

/// `ILR` at slot `n`: the MSB above the 5-bit LSB field.
pub open spec fn ilr_spec(n: int) -> int {
    32 * msb_spec(n) + lsb5_spec(n)
}

/// `IH` at slot `n`: the MSB above the LSB.
pub open spec fn ih_spec(n: int) -> int {
    2 * msb_spec(n) + higher_lsb_spec(n)
}

/// The `I#` word of slot `n` (RSS clear).
pub open spec fn i_hash_spec(n: int) -> i16 {
    infb_spec(ilr_spec(n) as u8, ih_spec(n) as u8, false)
}

fn flag_u8(b: bool) -> (r: u8)
    ensures
        r == flag(b),
{
    if b {
        1
    } else {
        0
    }
}

fn msb_subsequence_bit(sub: usize, within: usize) -> (r: u8)
    requires
        sub < 8,
    ensures
        r == msb_pattern(sub as int, within as int),
{
    if sub == 0 {
        // Period 3: 001
        flag_u8(within % 3 == 2)
    } else if sub == 1 {
        // Period 8: 11110000
        flag_u8(within % 8 < 4)
    } else if sub == 2 {
        // Constant 1.
        1
    } else if sub == 3 {
        // Period 4: 1100
        flag_u8(within % 4 < 2)
    } else if sub == 4 {
        // Period 2: 10
        flag_u8(within % 2 == 0)
    } else if sub == 5 {
        // Period 8: 00000100
        flag_u8(within % 8 == 5)
    } else if sub == 6 {
        // Period 5: 00101
        let p: usize = within % 5;
        flag_u8(p == 2 || p == 4)
    } else {
        // Period 5: 11000
        flag_u8(within % 5 < 2)
    }
}

/// The lower sub-band MSB at slot `bit_idx` of the eight concatenated
/// MSB sub-sequences (clause II.3.2.1).
pub fn lower_msb_bit(bit_idx: usize) -> (r: u8)
    requires
        bit_idx < ARTIFICIAL_SEQUENCE_LEN,
    ensures
        r == msb_spec(bit_idx as int),
        r <= 1,
{
    let sub: usize = bit_idx / SUBSEQUENCE_LEN_BITS;
    let within: usize = bit_idx % SUBSEQUENCE_LEN_BITS;
    msb_subsequence_bit(sub, within)
}

/// The higher sub-band MSB at slot `bit_idx`: identical to the lower
/// sub-band MSB (clause II.3.2.2).
pub fn higher_msb_bit(bit_idx: usize) -> (r: u8)
    requires
        bit_idx < ARTIFICIAL_SEQUENCE_LEN,
    ensures
        r == msb_spec(bit_idx as int),
        r <= 1,
{
    lower_msb_bit(bit_idx)
}

/// The higher sub-band LSB at slot `bit_idx` (clause II.3.2.2).
pub fn higher_lsb_bit(bit_idx: usize) -> (r: u8)
    requires
        bit_idx < ARTIFICIAL_SEQUENCE_LEN,
    ensures
        r == higher_lsb_spec(bit_idx as int),
        r <= 1,
{
    let sub: usize = bit_idx / SUBSEQUENCE_LEN_BITS;
    let within: usize = bit_idx % SUBSEQUENCE_LEN_BITS;
    if sub == 0 {
        1
    } else if sub == 1 {
        flag_u8(within % 32 < 16)
    } else if sub == 2 {
        0
    } else if sub == 3 {
        flag_u8(within % 16 < 8)
    } else if sub == 4 {
        0
    } else if sub == 5 {
        flag_u8(within % 8 < 4)
    } else if sub == 6 {
        1
    } else {
        flag_u8(within % 4 < 2)
    }
}

fn lower_lsb5_subsequence_value(sub: usize, within: usize) -> (r: u8)
    requires
        sub < NUM_LOWER_LSB_SUBSEQUENCES,
    ensures
        r == lsb5_pattern(sub as int + 1, within as int),
        r < 32,
{
    // Table II-4 numbers its sub-sequences from 1.
    let k: usize = sub + 1;
    if k == NUM_LOWER_LSB_SUBSEQUENCES {
        // Sub-sequence (64): sixteen 0s, sixteen 3s.
        return if within % 32 < 16 {
            0
        } else {
            3
        };
    }
    if k % 2 == 1 {
        // Odd k: constant 31 - (k - 1) / 2.
        (31 - (k - 1) / 2) as u8
    } else {
        // Even k: sixteen v, sixteen v - 1, v being the preceding odd
        // sub-sequence's constant.
        let v: usize = 31 - (k - 2) / 2;
        if within % 32 < 16 {
            v as u8
        } else {
            (v - 1) as u8
        }
    }
}

/// The lower sub-band 5-bit LSB field at slot `sample_idx` (Table II-4).
pub fn lower_lsb5(sample_idx: usize) -> (r: u8)
    requires
        sample_idx < ARTIFICIAL_SEQUENCE_LEN,
    ensures
        r == lsb5_spec(sample_idx as int),
        r < 32,
{
    let sub: usize = sample_idx / LOWER_LSB_SUBSEQUENCE_LEN;
    let within: usize = sample_idx % LOWER_LSB_SUBSEQUENCE_LEN;
    lower_lsb5_subsequence_value(sub, within)
}

/// The 6-bit `ILR` at slot `sample_idx`: `(MSB << 5) | LSB5`.
pub fn ilr(sample_idx: usize) -> (r: u8)
    requires
        sample_idx < ARTIFICIAL_SEQUENCE_LEN,
    ensures
        r == ilr_spec(sample_idx as int),
        r < 64,
{
    let msb: u8 = lower_msb_bit(sample_idx);
    let lsb5: u8 = lower_lsb5(sample_idx);
    proof {
        assert(((msb << 5u8) | (lsb5 & 31u8)) == 32 * msb + lsb5) by (bit_vector)
            requires
                msb <= 1,
                lsb5 < 32,
        ;
    }
    (msb << 5) | (lsb5 & 0x1F)
}

/// The 2-bit `IH` at slot `sample_idx`: `(MSB << 1) | LSB`.
pub fn ih(sample_idx: usize) -> (r: u8)
    requires
        sample_idx < ARTIFICIAL_SEQUENCE_LEN,
    ensures
        r == ih_spec(sample_idx as int),
        r < 4,
{
    let msb: u8 = higher_msb_bit(sample_idx);
    let lsb: u8 = higher_lsb_bit(sample_idx);
    proof {
        assert((((msb & 1u8) << 1u8) | (lsb & 1u8)) == 2 * msb + lsb) by (bit_vector)
            requires
                msb <= 1,
                lsb <= 1,
        ;
    }
    ((msb & 1) << 1) | (lsb & 1)
}

/// The 16384 `I#` words of the artificial sequence, RSS clear, without
/// the `.COD` frame's markers.
pub fn build_i_hash_stream() -> (r: Vec<i16>)
    ensures
        r@ == Seq::new(ARTIFICIAL_SEQUENCE_LEN as nat, |n: int| i_hash_spec(n)),
{
    let mut out: Vec<i16> = Vec::with_capacity(ARTIFICIAL_SEQUENCE_LEN);
    let mut n: usize = 0;
    while n < ARTIFICIAL_SEQUENCE_LEN
        invariant
            n <= ARTIFICIAL_SEQUENCE_LEN,
            out@ == Seq::new(n as nat, |k: int| i_hash_spec(k)),
        decreases ARTIFICIAL_SEQUENCE_LEN - n,
    {
        let il: u8 = ilr(n);
        let ihv: u8 = ih(n);
        out.push(infb(il, ihv, false));
        proof {
            assert(out@ =~= Seq::new((n + 1) as nat, |k: int| i_hash_spec(k)));
        }
        n = n + 1;
    }
    out
}

/// The `.COD` frame of the artificial sequence (clause II.4.5.2): 16
/// RSS-marker words (`0x0001`), the 16384 payload words of
/// [`build_i_hash_stream`], and 16 RSS-marker words.
pub fn build_cod_frame() -> (r: Vec<i16>)
    ensures
        r@ == Seq::new(COD_RSS_MARKER_WORDS as nat, |k: int| 1i16) + Seq::new(
            ARTIFICIAL_SEQUENCE_LEN as nat,
            |n: int| i_hash_spec(n),
        ) + Seq::new(COD_RSS_MARKER_WORDS as nat, |k: int| 1i16),
{
    let mut out: Vec<i16> = Vec::with_capacity(2 * COD_RSS_MARKER_WORDS + ARTIFICIAL_SEQUENCE_LEN);
    let mut k: usize = 0;
    while k < COD_RSS_MARKER_WORDS
        invariant
            k <= COD_RSS_MARKER_WORDS,
            out@ == Seq::new(k as nat, |j: int| 1i16),
        decreases COD_RSS_MARKER_WORDS - k,
    {
        out.push(0x0001);
        proof {
            assert(out@ =~= Seq::new((k + 1) as nat, |j: int| 1i16));
        }
        k = k + 1;
    }
    let payload: Vec<i16> = build_i_hash_stream();
    let ghost prefix: Seq<i16> = out@;
    let mut n: usize = 0;
    while n < payload.len()
        invariant
            n <= payload.len(),
            payload@ == Seq::new(ARTIFICIAL_SEQUENCE_LEN as nat, |j: int| i_hash_spec(j)),
            prefix == Seq::new(COD_RSS_MARKER_WORDS as nat, |j: int| 1i16),
            out@ == prefix + payload@.take(n as int),
        decreases payload.len() - n,
    {
        out.push(payload[n]);
        proof {
            assert(payload@.take(n as int + 1) == payload@.take(n as int).push(payload@[n as int]));
        }
        n = n + 1;
    }
    assert(payload@.take(payload.len() as int) == payload@);
    let ghost body: Seq<i16> = out@;
    let mut t: usize = 0;
    while t < COD_RSS_MARKER_WORDS
        invariant
            t <= COD_RSS_MARKER_WORDS,
            out@ == body + Seq::new(t as nat, |j: int| 1i16),
        decreases COD_RSS_MARKER_WORDS - t,
    {
        out.push(0x0001);
        proof {
            assert(body + Seq::new((t + 1) as nat, |j: int| 1i16) =~= (body + Seq::new(
                t as nat,
                |j: int| 1i16,
            )).push(1i16));
        }
        t = t + 1;
    }
    out
}

/// Every word of the artificial `I#` stream decodes through INFC back to
/// that slot's `ILR` and `IH`, with RSS clear.
pub proof fn lemma_i_hash_stream_decodes(n: int)
    requires
        0 <= n < ARTIFICIAL_SEQUENCE_LEN,
    ensures
        infc_spec(i_hash_spec(n)) == (InfcOutput { ilr: ilr_spec(n) as u8, ih: ih_spec(n) as u8, rs: false }),
        u16_of(i_hash_spec(n) as int) % 2 == 0,
{
    assert(0 <= msb_spec(n) <= 1);
    assert(0 <= lsb5_spec(n) < 32);
    assert(0 <= higher_lsb_spec(n) <= 1);
    lemma_infc_inverts_infb(ilr_spec(n) as u8, ih_spec(n) as u8, false);
}

} // verus!
