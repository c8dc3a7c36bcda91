//! Clause 2.5.7 / Figure 16: variation of gain with input level, a
//! corridor around the gain at -10 dBm0 whose half-width narrows from
//! 1.5 dB (-61 .. -56 dBm0) to 0.5 dB (-56 .. -46 dBm0) and 0.3 dB
//! (-46 .. +9 dBm0).

use vstd::prelude::*;

verus! {

/// Frequency of the measurement tone of clause 2.5.7.
pub const MEASUREMENT_TONE_HZ: u32 = 1_000;

/// The band of the Figure 16 mask that an input level falls into.
#[derive(Debug, Clone, Copy, PartialEq, Eq, Structural)]
pub enum MaskBand {
    /// Below the -61 dBm0 left wall: no constraint.
    BelowMask,
    /// -61 .. -56 dBm0: half-width 1.5 dB.
    Wide,
    /// -56 .. -46 dBm0: half-width 0.5 dB.
    Mid,
    /// -46 .. +9 dBm0: half-width 0.3 dB.
    Tight,
    /// Above the +9 dBm0 right wall (the overload point): no constraint.
    AboveMask,
}

/// The measurement tone lies inside the nominal passband, within 2 % of
/// the nominal reference frequency.
pub proof fn lemma_measurement_tone_in_passband()
    ensures
        crate::transmission::NOMINAL_PASSBAND_LOW_HZ < MEASUREMENT_TONE_HZ,
        MEASUREMENT_TONE_HZ < crate::transmission::NOMINAL_PASSBAND_HIGH_HZ,
        (crate::transmission::NOMINAL_REFERENCE_FREQUENCY_HZ - MEASUREMENT_TONE_HZ) * 50
            <= MEASUREMENT_TONE_HZ,
{
}

} // verus!
