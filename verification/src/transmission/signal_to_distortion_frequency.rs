//! Clause 2.5.6 / Figure 15: the signal-to-total distortion floor as a
//! function of frequency at -10 dBm0, over 50 Hz .. 7 kHz.

use vstd::prelude::*;

verus! {

/// The band of the Figure 15 mask that a frequency falls into.
#[derive(Debug, Clone, Copy, PartialEq, Eq, Structural)]
pub enum MaskBand {
    /// Below the 50 Hz left wall: no constraint.
    BelowMask,
    /// 50 Hz .. 100 Hz: floor 50 dB.
    LowPlateau,
    /// 100 Hz .. 4 kHz: floor 60 dB.
    MainPlateau,
    /// 4 kHz .. 6 kHz: log-linear ramp from 60 dB down to 46.2 dB.
    Ramp,
    /// 6 kHz .. 7 kHz: floor 46.2 dB.
    HighPlateau,
    /// Above the 7 kHz right wall: no constraint.
    AboveMask,
}

} // verus!
