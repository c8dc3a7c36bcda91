//! Transmission characteristics of clause 2: the clock and sample-rate
//! accounting, the integer reference frequencies and band edges, and the
//! mask bands of the clause 2.4 / 2.5 masks. The limits themselves are
//! expressed in dB and ms, in floating point, and are evaluated by the
//! application layer against these integer anchors.

use vstd::prelude::*;

pub mod attenuation_distortion;
pub mod gain_variation;
pub mod group_delay_distortion;
pub mod reconstructing_filter;
pub mod signal_to_distortion;
pub mod signal_to_distortion_frequency;
pub mod spectrum;

verus! {

/// 64 kHz bit clock of the wire stream (clause 1.6).
pub const BIT_CLOCK_HZ: u32 = 64_000;

/// 8 kHz octet clock: one octet per lower / higher sub-band sample pair
/// (clause 1.6).
pub const OCTET_CLOCK_HZ: u32 = 8_000;

/// 16 kHz uniform-PCM sample clock of the audio parts (clause 1.4.1).
pub const PCM_SAMPLE_CLOCK_HZ: u32 = 16_000;

/// 8 kHz sub-band sample clock of the QMF outputs (clause 1.4.1).
pub const SUBBAND_SAMPLE_CLOCK_HZ: u32 = 8_000;

/// Width in bits of the uniform-PCM representation of the audio parts
/// (clause 1.4.1: 14 bits at 16 kHz).
pub const UNIFORM_PCM_BITS: u32 = 14;

/// Sample-clock precision of the A/D and D/A converters, in parts per
/// million (clause 2.2: 50 * 10^-6).
pub const SAMPLE_CLOCK_TOLERANCE_PPM: u32 = 50;

/// Nominal reference frequency of the transmission measurements
/// (clause 2.3): 1020 Hz, avoiding sub-harmonics of 16 kHz.
pub const NOMINAL_REFERENCE_FREQUENCY_HZ: u32 = 1020;

/// Allowed upward deviation from the nominal reference frequency
/// (clause 2.3: +2 Hz).
pub const NOMINAL_REFERENCE_FREQUENCY_PLUS_HZ: i32 = 2;

/// Allowed downward deviation from the nominal reference frequency
/// (clause 2.3: -7 Hz).
pub const NOMINAL_REFERENCE_FREQUENCY_MINUS_HZ: i32 = 7;

/// Low edge of the nominal 3 dB passband (clause 2.4.1).
pub const NOMINAL_PASSBAND_LOW_HZ: u32 = 50;

/// High edge of the nominal 3 dB passband (clause 2.4.1).
pub const NOMINAL_PASSBAND_HIGH_HZ: u32 = 7000;

/// Lower bound of the idle-noise measurement windows (clause 2.4.4).
pub const IDLE_NOISE_BAND_LOW_HZ: u32 = 50;

/// Upper bound of the narrow-band idle-noise window (clause 2.4.4); the
/// passband's upper edge.
pub const IDLE_NOISE_NARROWBAND_HIGH_HZ: u32 = 7000;

/// Upper bound of the wide-band idle-noise window (clause 2.4.4).
pub const IDLE_NOISE_WIDEBAND_HIGH_HZ: u32 = 20_000;

/// Magnitude that the 14-bit uniform-PCM representation treats as full
/// scale: the 14-bit signed boundary `2^13 = 8192`.
pub fn uniform_pcm_full_scale() -> (r: i32)
    ensures
        r == 8192,
{
    proof {
        assert((1i32 << 13u32) == 8192) by (bit_vector);
    }
    1i32 << (UNIFORM_PCM_BITS - 1)
}

/// The clocks are consistent: 8 bits per octet at the octet clock make
/// the bit clock, two PCM samples per sub-band sample make the PCM clock,
/// and the passband and the nominal reference frequency lie below the
/// 8 kHz Nyquist edge, the reference inside the passband.
pub proof fn lemma_clocks_consistent()
    ensures
        BIT_CLOCK_HZ == OCTET_CLOCK_HZ * 8,
        PCM_SAMPLE_CLOCK_HZ == SUBBAND_SAMPLE_CLOCK_HZ * 2,
        NOMINAL_PASSBAND_LOW_HZ < NOMINAL_REFERENCE_FREQUENCY_HZ < NOMINAL_PASSBAND_HIGH_HZ,
        NOMINAL_PASSBAND_HIGH_HZ < SUBBAND_SAMPLE_CLOCK_HZ,
        IDLE_NOISE_BAND_LOW_HZ == NOMINAL_PASSBAND_LOW_HZ,
        IDLE_NOISE_NARROWBAND_HIGH_HZ == NOMINAL_PASSBAND_HIGH_HZ,
{
}

} // verus!
