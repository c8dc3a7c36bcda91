//! Clause 2.5.2 / Figure 12: the attenuation mask of the receive audio
//! part's output reconstructing filter, an in-band ripple corridor and a
//! stopband floor rising with frequency.

use vstd::prelude::*;

verus! {

/// Low edge of the tight in-band region of Figure 12.
pub const PASSBAND_LOW_HZ: u32 = 100;

/// High edge of the tight in-band region of Figure 12.
pub const PASSBAND_TIGHT_HIGH_HZ: u32 = 6_400;

/// Upper edge of the relaxed in-band region of Figure 12.
pub const PASSBAND_RELAXED_HIGH_HZ: u32 = 7_000;

/// Entry of the stopband.
pub const STOPBAND_ENTRY_HZ: u32 = 8_000;

/// Stopband shoulder, where the floor rises.
pub const STOPBAND_SHOULDER_HZ: u32 = 9_000;

/// Far stopband, where the floor reaches its maximum.
pub const STOPBAND_FAR_HZ: u32 = 14_000;

/// The band of the Figure 12 mask that a frequency falls into.
#[derive(Debug, Clone, Copy, PartialEq, Eq, Structural)]
pub enum MaskBand {
    /// Below the 50 Hz anchor: no constraint.
    BelowMask,
    /// 50 Hz .. 100 Hz: no tight bound printed.
    LowTransition,
    /// 100 Hz .. 6.4 kHz: -0.5 dB to +0.5 dB.
    InBandTight,
    /// 6.4 kHz .. 7 kHz: -0.5 dB to +1.5 dB.
    InBandRelaxed,
    /// 7 kHz .. 8 kHz: lower bound -0.5 dB only.
    HighTransition,
    /// 8 kHz and above: a frequency-dependent attenuation floor.
    Stopband,
}

/// The Figure 12 breakpoints rise strictly from the passband's low edge
/// to the far stopband; the stopband starts at the 8 kHz sub-band clock.
pub proof fn lemma_breakpoints_ordered()
    ensures
        crate::transmission::NOMINAL_PASSBAND_LOW_HZ < PASSBAND_LOW_HZ,
        PASSBAND_LOW_HZ < PASSBAND_TIGHT_HIGH_HZ,
        PASSBAND_TIGHT_HIGH_HZ < PASSBAND_RELAXED_HIGH_HZ,
        PASSBAND_RELAXED_HIGH_HZ < STOPBAND_ENTRY_HZ,
        STOPBAND_ENTRY_HZ < STOPBAND_SHOULDER_HZ,
        STOPBAND_SHOULDER_HZ < STOPBAND_FAR_HZ,
        STOPBAND_ENTRY_HZ == crate::transmission::SUBBAND_SAMPLE_CLOCK_HZ,
{
}

} // verus!
