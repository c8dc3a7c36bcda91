//! G.722 operating mode (64 / 56 / 48 kbit/s audio, Table 1).
//!
//! The three modes share every building block of the coder except the
//! number of lower sub-band code-word bits that carry audio: Mode 2
//! and Mode 3 leave one or two least-significant bits of the lower
//! sub-band code-word to the auxiliary data channel.
//!
//! Besides the per-mode bit accounting, this module carries the
//! sample-serial byte packing used by the self-consistent sub-band
//! coders of `band_low` / `band_high`:
//!
//! ```text
//! mode 1: [ IL5 IL4 IL3 IL2 IL1 IL0 | IH1 IH0 ]   64 kbit/s
//! mode 2: [ IL4 IL3 IL2 IL1 IL0 A0  | IH1 IH0 ]   56 kbit/s (A0 = aux)
//! mode 3: [ IL3 IL2 IL1 IL0 A1  A0  | IH1 IH0 ]   48 kbit/s (A1..A0 = aux)
//! ```

use vstd::prelude::*;

verus! {

/// Bit-rate mode of a G.722 stream (Table 1).
#[derive(Debug, Clone, Copy, PartialEq, Eq, Structural)]
#[non_exhaustive]
pub enum Mode {
    /// Mode 1 — 64 kbit/s audio (6-bit lower sub-band, 2-bit upper).
    Mode1,
    /// Mode 2 — 56 kbit/s audio (5-bit lower sub-band, 2-bit upper);
    /// the LSB of the lower sub-band code-word is data.
    Mode2,
    /// Mode 3 — 48 kbit/s audio (4-bit lower sub-band, 2-bit upper);
    /// the two LSBs of the lower sub-band code-word are data.
    Mode3,
}

/// Number of lower sub-band code-word bits that carry audio.
pub open spec fn lb_bits_spec(m: Mode) -> int {
    match m {
        Mode::Mode1 => 6,
        Mode::Mode2 => 5,
        Mode::Mode3 => 4,
    }
}

/// Number of lower sub-band code-word LSBs that the decoder discards.
pub open spec fn discard_spec(m: Mode) -> int {
    6 - lb_bits_spec(m)
}

/// Audio bit rate in bit/s.
pub open spec fn bit_rate_spec(m: Mode) -> int {
    8000 * (2 + lb_bits_spec(m))
}

/// Mask of the lower sub-band code-word bits in the packed byte layout.
pub open spec fn lb_mask_spec(m: Mode) -> int {
    match m {
        Mode::Mode1 => 63,
        Mode::Mode2 => 31,
        Mode::Mode3 => 15,
    }
}

/// Packed byte layout: the lower sub-band code above the auxiliary
/// bits, the 2-bit higher sub-band code in the two LSBs.
pub open spec fn pack_spec(m: Mode, il: int, ih: int) -> int {
    (il % (lb_mask_spec(m) + 1)) * match m {
        Mode::Mode1 => 4int,
        Mode::Mode2 => 8int,
        Mode::Mode3 => 16int,
    } + ih % 4
}

impl Default for Mode {
    /// Mode 1 (64 kbit/s audio, no auxiliary data).
    fn default() -> (r: Self)
        ensures
            r == Mode::Mode1,
    {
        Mode::Mode1
    }
}

/// The error that `oxideav_core::Error::unsupported` builds from the
/// message naming the unrecognised bit rate `rate`: an
/// `Error::Unsupported` carrying that message, a function of the rate
/// alone.
pub uninterp spec fn unsupported_bit_rate_error(rate: u64) -> oxideav_core::Error;

/// `oxideav_core::Error::unsupported` applied to the message naming the
/// unrecognised bit rate `other`; the contract claims only that the
/// result is [`unsupported_bit_rate_error`] of `other` (the error value
/// is opaque here and carried back to the caller).
#[verifier::external_body]
fn unsupported_bit_rate(other: u64) -> (e: oxideav_core::Error)
    ensures
        e == unsupported_bit_rate_error(other),
{
    oxideav_core::Error::unsupported(
        format!("G.722: unsupported bit rate {other} bit/s (expected 48000 / 56000 / 64000)"),
    )
}

#[verifier::external_type_specification]
#[verifier::external_body]
pub struct ExCoreError(oxideav_core::Error);

/// The byte layouts of the three modes, bit by bit.
proof fn lemma_byte_layout()
    by (bit_vector)
    ensures
        1u8 << 6u8 == 64u8,
        1u8 << 5u8 == 32u8,
        1u8 << 4u8 == 16u8,
        forall|il: u8, ih: u8|
            #[trigger] (((il & 63u8) << 2u8) | (ih & 3u8)) == (il % 64) * 4 + ih % 4,
        forall|il: u8, ih: u8|
            #[trigger] (((il & 31u8) << 3u8) | (ih & 3u8)) == (il % 32) * 8 + ih % 4,
        forall|il: u8, ih: u8|
            #[trigger] (((il & 15u8) << 4u8) | (ih & 3u8)) == (il % 16) * 16 + ih % 4,
        forall|b: u8| #[trigger] (b & 3u8) == b % 4,
        forall|b: u8| #[trigger] ((b >> 2u8) & 63u8) == b / 4,
        forall|b: u8| #[trigger] ((b >> 3u8) & 31u8) == b / 8,
        forall|b: u8| #[trigger] ((b >> 4u8) & 15u8) == b / 16,
{
}

impl Mode {
    /// Number of LSBs of the lower sub-band code-word that the decoder
    /// discards (Table 2).
    pub fn lsbs_to_discard(self) -> (r: u8)
        ensures
            r == discard_spec(self),
    {
        match self {
            Mode::Mode1 => 0,
            Mode::Mode2 => 1,
            Mode::Mode3 => 2,
        }
    }

    /// Number of bits used for the lower sub-band code (sign included).
    pub fn lb_bits(self) -> (r: u8)
        ensures
            r == lb_bits_spec(self),
    {
        match self {
            Mode::Mode1 => 6,
            Mode::Mode2 => 5,
            Mode::Mode3 => 4,
        }
    }

    /// Number of bits of the lower sub-band magnitude (`lb_bits - 1`).
    pub fn lb_mag_bits(self) -> (r: u8)
        ensures
            r == lb_bits_spec(self) - 1,
    {
        self.lb_bits() - 1
    }

    /// Audio bit rate in bit/s.
    pub fn bit_rate(self) -> (r: u64)
        ensures
            r == bit_rate_spec(self),
    {
        match self {
            Mode::Mode1 => 64_000,
            Mode::Mode2 => 56_000,
            Mode::Mode3 => 48_000,
        }
    }

    /// Map a bit-rate hint to a mode; no hint selects Mode 1. Any rate
    /// other than 64000, 56000 or 48000 bit/s is refused.
    pub fn from_bit_rate(br: Option<u64>) -> (r: Result<Mode, oxideav_core::Error>)
        ensures
            r matches Ok(m) ==> (br is None && m == Mode::Mode1) || (br == Some(bit_rate_spec(m) as u64)),
            r is Ok <==> (br is None || br == Some(64000u64) || br == Some(56000u64) || br == Some(48000u64)),
            r matches Err(e) ==> br matches Some(v) && e == unsupported_bit_rate_error(v),
    {
        match br {
            None => Ok(Mode::Mode1),
            Some(v) => {
                if v == 64_000 {
                    Ok(Mode::Mode1)
                } else if v == 56_000 {
                    Ok(Mode::Mode2)
                } else if v == 48_000 {
                    Ok(Mode::Mode3)
                } else {
                    Err(unsupported_bit_rate(v))
                }
            },
        }
    }

    /// Pack a lower sub-band code `il` (of [`Self::lb_bits`] width) and a
    /// 2-bit higher sub-band code `ih` into one byte; auxiliary bits are
    /// zero.
    pub fn pack(self, il: u8, ih: u8) -> (r: u8)
        ensures
            r == pack_spec(self, il as int, ih as int),
    {
        let bits: u8 = self.lb_bits();
        proof {
            lemma_byte_layout();
        }
        let mask: u8 = (1u8 << bits) - 1;
        let lb: u8 = il & mask;
        let shift: u8 = 8 - bits;
        let r: u8 = (lb << shift) | (ih & 0x03);
        proof {
            match self {
                Mode::Mode1 => {
                    assert((((il & 63u8) << 2u8) | (ih & 3u8)) == (il % 64) * 4 + ih % 4);
                },
                Mode::Mode2 => {
                    assert((((il & 31u8) << 3u8) | (ih & 3u8)) == (il % 32) * 8 + ih % 4);
                },
                Mode::Mode3 => {
                    assert((((il & 15u8) << 4u8) | (ih & 3u8)) == (il % 16) * 16 + ih % 4);
                },
            }
        }
        r
    }

    /// Unpack the lower sub-band code (of [`Self::lb_bits`] width) and the
    /// 2-bit higher sub-band code from a byte; auxiliary bits are
    /// discarded.
    pub fn unpack(self, byte: u8) -> (r: (u8, u8))
        ensures
            r.0 == (byte as int / match self {
                Mode::Mode1 => 4int,
                Mode::Mode2 => 8int,
                Mode::Mode3 => 16int,
            }),
            r.1 == byte % 4,
    {
        let bits: u8 = self.lb_bits();
        proof {
            lemma_byte_layout();
        }
        let shift: u8 = 8 - bits;
        let mask: u8 = (1u8 << bits) - 1;
        let il: u8 = (byte >> shift) & mask;
        let ih: u8 = byte & 0x03;
        proof {
            assert((byte & 3u8) == byte % 4);
            match self {
                Mode::Mode1 => {
                    assert(((byte >> 2u8) & 63u8) == byte / 4);
                },
                Mode::Mode2 => {
                    assert(((byte >> 3u8) & 31u8) == byte / 8);
                },
                Mode::Mode3 => {
                    assert(((byte >> 4u8) & 15u8) == byte / 16);
                },
            }
        }
        (il, ih)
    }
}

/// Unpacking a packed byte gives back the codes, each cut to its width.
pub proof fn lemma_pack_unpack_round_trip(m: Mode, il: u8, ih: u8)
    ensures
        ({
            let byte = pack_spec(m, il as int, ih as int);
            &&& byte / match m {
                Mode::Mode1 => 4int,
                Mode::Mode2 => 8int,
                Mode::Mode3 => 16int,
            } == il as int % (lb_mask_spec(m) + 1)
            &&& byte % 4 == ih as int % 4
            &&& 0 <= byte < 256
        }),
{
}

/// The auxiliary bits between the two codes play no part in unpacking:
/// bytes that differ only there unpack alike.
pub proof fn lemma_unpack_ignores_aux_bits(m: Mode, a: u8, b: u8)
    requires
        a as int / 4 / (match m {
            Mode::Mode1 => 1int,
            Mode::Mode2 => 2int,
            Mode::Mode3 => 4int,
        }) == b as int / 4 / (match m {
            Mode::Mode1 => 1int,
            Mode::Mode2 => 2int,
            Mode::Mode3 => 4int,
        }),
        a % 4 == b % 4,
    ensures
        a as int / match m {
            Mode::Mode1 => 4int,
            Mode::Mode2 => 8int,
            Mode::Mode3 => 16int,
        } == b as int / match m {
            Mode::Mode1 => 4int,
            Mode::Mode2 => 8int,
            Mode::Mode3 => 16int,
        },
{
}

} // verus!
