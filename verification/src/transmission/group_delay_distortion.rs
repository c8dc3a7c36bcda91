//! Clause 2.5.3 / Figure 13: the group-delay-distortion mask of the
//! audio parts, a piecewise-constant ceiling over 50 Hz .. 7 kHz.

use vstd::prelude::*;

use crate::transmission::NOMINAL_PASSBAND_HIGH_HZ;

verus! {

/// Start of the low shoulder of Figure 13.
pub const LOW_SHOULDER_LOW_HZ: u32 = 100;

/// Start of the tight core of Figure 13.
pub const CORE_LOW_HZ: u32 = 300;

/// End of the tight core: the QMF band split at 4 kHz.
pub const CORE_HIGH_HZ: u32 = 4_000;

/// End of the high shoulder of Figure 13.
pub const HIGH_SHOULDER_HIGH_HZ: u32 = 6_400;

/// Right wall of the Figure 13 mask: the nominal passband's upper edge.
pub const MASK_HIGH_EDGE_HZ: u32 = NOMINAL_PASSBAND_HIGH_HZ;

/// The band of the Figure 13 mask that a frequency falls into.
#[derive(Debug, Clone, Copy, PartialEq, Eq, Structural)]
pub enum MaskBand {
    /// Below the 50 Hz anchor: no constraint.
    BelowMask,
    /// 50 Hz .. 100 Hz: ceiling 4 ms.
    LowTransition,
    /// 100 Hz .. 300 Hz: ceiling 1 ms.
    LowShoulder,
    /// 300 Hz .. 4 kHz: ceiling 0.25 ms.
    Core,
    /// 4 kHz .. 6.4 kHz: ceiling 1 ms.
    HighShoulder,
    /// 6.4 kHz .. 7 kHz: ceiling 2 ms.
    HighTransition,
    /// Above the 7 kHz right wall: no constraint.
    AboveMask,
}

/// The Figure 13 breakpoints rise strictly from the passband's low edge
/// to the right wall at the passband's high edge, and the core ends at
/// the QMF band split.
pub proof fn lemma_breakpoints_ordered()
    ensures
        crate::transmission::NOMINAL_PASSBAND_LOW_HZ < LOW_SHOULDER_LOW_HZ,
        LOW_SHOULDER_LOW_HZ < CORE_LOW_HZ,
        CORE_LOW_HZ < CORE_HIGH_HZ,
        CORE_HIGH_HZ < HIGH_SHOULDER_HIGH_HZ,
        HIGH_SHOULDER_HIGH_HZ < MASK_HIGH_EDGE_HZ,
        MASK_HIGH_EDGE_HZ == NOMINAL_PASSBAND_HIGH_HZ,
        CORE_HIGH_HZ * 2 == crate::transmission::SUBBAND_SAMPLE_CLOCK_HZ,
{
}

} // verus!
