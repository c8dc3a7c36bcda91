//! # oxideav-g722
//!
//! SB-ADPCM codec for ITU-T G.722 wideband audio at 64 / 56 / 48
//! kbit/s, with its behaviour stated in contracts and proved.
//!
//! * The transmit path ([`Encoder`]) packs 16 kHz PCM into the
//!   64 kbit/s octet stream through the 24-tap transmit QMF and the 60-
//!   and 4-level adaptive quantizers.
//! * The receive path ([`Decoder`]) unpacks the octets back into 16 kHz
//!   PCM through the inverse quantizers, the pole-zero predictors and the
//!   24-tap receive QMF.
//!
//! The three modes of Table 1 differ only in how many lower sub-band
//! bits carry audio; the auxiliary data channel of Modes 2 and 3 is
//! carried by [`DataInserter`] / [`DataExtractor`].
//!
//! [`PlcDecoder`] adds frame-erasure concealment to the receive path:
//! good frames decode as the plain decoder's 16-bit output, erased
//! frames are extrapolated from the lower band's LP and pitch analysis
//! and the higher band's pitch-synchronous repetition, under adaptive
//! muting.

use vstd::prelude::*;



pub mod aux_data;
pub mod band_high;
pub mod band_low;
pub mod basicop;
pub mod decoder;
pub mod encoder;
pub mod mode;
pub mod plc;
pub mod plc_analysis;
pub mod plc_tables;
pub mod predictor;
pub mod qmf;
pub mod tables;
pub mod test_harness;
pub mod transmission;



pub use decoder::Decoder;
pub use plc::PlcDecoder;
pub use encoder::Encoder;
pub use mode::Mode;
pub use aux_data::{aux_bit_rate_kbps, aux_bits_per_octet, DataExtractor, DataInserter};

verus! {

/// Crate-local error type. Every decoding operation is infallible at
/// the octet level (any 8-bit value is a valid octet); the type is kept
/// for operations that may later fail. (It is not called `Error`, so that
/// `oxideav_core::Error`, returned by [`Mode::from_bit_rate`], keeps its
/// name in this crate.)
#[derive(Debug, Clone, Copy, PartialEq, Eq, Structural)]
#[non_exhaustive]
pub enum G722Error {
    /// The requested operation is not implemented.
    NotImplemented,
}

impl G722Error {
    /// The human-readable message of the error.
    pub fn message(&self) -> (r: String)
        ensures
            r@ == "oxideav-g722: feature not implemented"@,
    {
        match self {
            G722Error::NotImplemented => String::from_str("oxideav-g722: feature not implemented"),
        }
    }
}

/// Decoder factory: a decoder at the reset condition in `mode`.
pub fn make_decoder(mode: Mode) -> (r: Decoder)
    ensures
        r.wf(),
        r == Decoder::fresh_spec(mode),
{
    Decoder::new(mode)
}

/// Encoder factory: an encoder at the reset condition (the transmit path
/// has no mode; it always packs the full 6-bit lower code-word).
pub fn make_encoder() -> (r: Encoder)
    ensures
        r.wf(),
        r == Encoder::fresh_spec(),
{
    Encoder::new()
}

#[verifier::external_type_specification]
#[verifier::external_body]
pub struct ExRuntimeContext(oxideav_core::RuntimeContext);

/// Registry entry point: registers nothing, since the codec is reached
/// through [`make_decoder`] / [`make_encoder`] directly.
pub fn register(ctx: &mut oxideav_core::RuntimeContext)
    ensures
        *final(ctx) == *old(ctx),
{
}

} // verus!
