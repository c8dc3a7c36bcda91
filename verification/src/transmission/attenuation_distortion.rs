//! Clause 2.4.2 / Figure 10: the end-to-end attenuation /
//! frequency-distortion mask of the encoder + decoder loop. Between
//! 50 Hz and 8 kHz the printed corridor is -1 dB to +1 dB on
//! 100 Hz .. 6.4 kHz, -1 dB to +3 dB on the two transition strips, and
//! only the -1 dB lower bound from 7 kHz to the 8 kHz right wall.

use vstd::prelude::*;

use crate::transmission::{NOMINAL_PASSBAND_HIGH_HZ, SUBBAND_SAMPLE_CLOCK_HZ};

verus! {

/// Low edge of the tight in-band region of Figure 10.
pub const PASSBAND_LOW_HZ: u32 = 100;

/// High edge of the tight in-band region of Figure 10; the upper bound
/// relaxes above it.
pub const PASSBAND_TIGHT_HIGH_HZ: u32 = 6_400;

/// Upper edge of the relaxed in-band corridor: the nominal passband's
/// upper edge.
pub const PASSBAND_RELAXED_HIGH_HZ: u32 = NOMINAL_PASSBAND_HIGH_HZ;

/// Right wall of the Figure 10 mask: 8 kHz, the Nyquist edge of the
/// 16 kHz sample clock.
pub const MASK_HIGH_EDGE_HZ: u32 = SUBBAND_SAMPLE_CLOCK_HZ;

/// The band of the Figure 10 mask that a frequency falls into.
#[derive(Debug, Clone, Copy, PartialEq, Eq, Structural)]
pub enum MaskBand {
    /// Below the 50 Hz anchor: no constraint.
    BelowMask,
    /// 50 Hz .. 100 Hz: -1 dB to +3 dB.
    LowTransition,
    /// 100 Hz .. 6.4 kHz: -1 dB to +1 dB.
    InBandTight,
    /// 6.4 kHz .. 7 kHz: -1 dB to +3 dB.
    InBandRelaxed,
    /// 7 kHz .. 8 kHz: lower bound -1 dB only.
    HighTransition,
    /// Above the 8 kHz right wall: no constraint.
    AboveMask,
}

/// The Figure 10 breakpoints rise strictly from the passband's low edge
/// to the right wall, which is the 8 kHz sub-band clock; the relaxed
/// corridor ends at the passband's high edge.
pub proof fn lemma_breakpoints_ordered()
    ensures
        crate::transmission::NOMINAL_PASSBAND_LOW_HZ < PASSBAND_LOW_HZ,
        PASSBAND_LOW_HZ < PASSBAND_TIGHT_HIGH_HZ,
        PASSBAND_TIGHT_HIGH_HZ < PASSBAND_RELAXED_HIGH_HZ,
        PASSBAND_RELAXED_HIGH_HZ < MASK_HIGH_EDGE_HZ,
        MASK_HIGH_EDGE_HZ == SUBBAND_SAMPLE_CLOCK_HZ,
        PASSBAND_RELAXED_HIGH_HZ == NOMINAL_PASSBAND_HIGH_HZ,
{
}

} // verus!
