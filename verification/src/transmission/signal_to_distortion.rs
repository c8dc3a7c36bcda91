//! Clause 2.5.5 / Figure 14: the signal-to-total distortion floor as a
//! function of input level, measured with two tones, one in each
//! sub-band.

use vstd::prelude::*;

verus! {

/// The "about 1 kHz" measurement tone (lower sub-band).
pub const MEASUREMENT_TONE_LOW_HZ: u32 = 1_000;

/// The "about 6 kHz" measurement tone (higher sub-band).
pub const MEASUREMENT_TONE_HIGH_HZ: u32 = 6_000;

/// The two measurement tones of clause 2.5.5.
#[derive(Debug, Clone, Copy, PartialEq, Eq, Structural)]
pub enum MeasurementTone {
    /// About 1 kHz: lower sub-band; 60 dB plateau from -11 dBm0.
    About1KHz,
    /// About 6 kHz: higher sub-band; 50 dB plateau from -21 dBm0.
    About6KHz,
}

impl MeasurementTone {
    /// Nominal tone frequency in Hz.
    pub fn nominal_frequency_hz(self) -> (r: u32)
        ensures
            r == (match self {
                MeasurementTone::About1KHz => MEASUREMENT_TONE_LOW_HZ,
                MeasurementTone::About6KHz => MEASUREMENT_TONE_HIGH_HZ,
            }),
    {
        match self {
            MeasurementTone::About1KHz => MEASUREMENT_TONE_LOW_HZ,
            MeasurementTone::About6KHz => MEASUREMENT_TONE_HIGH_HZ,
        }
    }
}

/// The band of the Figure 14 mask that an input level falls into.
#[derive(Debug, Clone, Copy, PartialEq, Eq, Structural)]
pub enum MaskBand {
    /// Below the -56 dBm0 left wall: no constraint.
    BelowMask,
    /// On the shared rising diagonal (floor = level + 71 dB).
    Diagonal,
    /// On the tone's horizontal plateau (60 dB at 1 kHz, 50 dB at
    /// 6 kHz).
    Plateau,
    /// Above the +8 dBm0 right wall: no constraint.
    AboveMask,
}

/// The two measurement tones straddle the 4 kHz QMF band split, one in
/// each sub-band, and both lie inside the nominal passband.
pub proof fn lemma_tones_straddle_band_split()
    ensures
        MEASUREMENT_TONE_LOW_HZ < crate::transmission::SUBBAND_SAMPLE_CLOCK_HZ / 2,
        MEASUREMENT_TONE_HIGH_HZ > crate::transmission::SUBBAND_SAMPLE_CLOCK_HZ / 2,
        crate::transmission::NOMINAL_PASSBAND_LOW_HZ < MEASUREMENT_TONE_LOW_HZ,
        MEASUREMENT_TONE_HIGH_HZ < crate::transmission::NOMINAL_PASSBAND_HIGH_HZ,
{
}

} // verus!
