//! Numeric tables of the packet-loss concealment: the fixed-point data
//! tables of Table IV.5 (the LPC analysis window, the lag window, the
//! decimation low-pass and the pre-processing high-pass), and the
//! higher-band post-filter constants of equation (IV-19).

use vstd::prelude::*;

verus! {

/// Asymmetrical Hamming LPC analysis window of equation (IV-2) in Q15
/// (scale 32767), 80 entries over `zl(-80 .. -1)`: rising to the peak
/// 32767 at index 69, falling after it.
pub const LPC_WIN_80: [i32; 80] = [
    2621, 2637, 2684, 2762, 2871, 3010, 3180, 3380, 3610, 3869, 4157, 4473, 4816, 5185, 5581, 6002,
    6447, 6915, 7406, 7918, 8451, 9002, 9571, 10158, 10760, 11376, 12005, 12647, 13298, 13959,
    14628, 15302, 15982, 16666, 17351, 18037, 18723, 19406, 20086, 20761, 21429, 22090, 22742,
    23383, 24012, 24629, 25231, 25817, 26386, 26938, 27470, 27982, 28473, 28941, 29386, 29807,
    30203, 30573, 30916, 31231, 31519, 31778, 32008, 32208, 32378, 32518, 32627, 32705, 32751,
    32767, 32029, 29888, 26554, 22352, 17694, 13036, 8835, 5500, 3359, 2621,
];

/// Lag window for the 60 Hz bandwidth expansion, high words: entry `k`
/// is the high half of the Q31 window value for autocorrelation lag
/// `k + 1`, in the `(hi << 16) + (lo << 1)` double-precision encoding.
/// The 40 dB white-noise correction is folded into the values.
pub const LAG_H: [i32; 8] = [32728, 32619, 32438, 32187, 31867, 31480, 31029, 30517];

/// Lag window, low words (see [`LAG_H`]).
pub const LAG_L: [i32; 8] = [11904, 17280, 30720, 25856, 24192, 28992, 24384, 7360];

/// Decimation low-pass `H_dec(z)` of equation (IV-5) in Q16: symmetric,
/// 9 taps, ahead of the 4:1 decimation to 2 kHz. Its DC gain is
/// 67973 / 65536, not unity.
pub const FIR_LP: [i32; 9] = [3692, 6190, 8525, 10186, 10787, 10186, 8525, 6190, 3692];

/// Pre-processing high-pass `H_pre(z)` numerator of equation (IV-4) in
/// Q14: `1 - z^-1`.
pub const B_HP: [i32; 2] = [16384, -16384];

/// `H_pre(z)` denominator in Q14, entry 1 stored as the feedback
/// coefficient of `y(n) = x(n) - x(n-1) + (123/128) y(n-1)`.
pub const A_HP: [i32; 2] = [16384, 15744];

/// Higher-band post-filter `H_post(z)` numerator of equation (IV-19) in
/// Q13: `(7303/8192)(1 - z^-1)`.
pub const B_HP_POST: [i32; 2] = [7303, -7303];

/// `H_post(z)` denominator in Q13, entry 1 stored as the feedback
/// coefficient of `v(n) = (7303/8192)(u(n) - u(n-1)) + (3207/4096) v(n-1)`.
pub const A_HP_POST: [i32; 2] = [8192, 6414];

/// Every table entry is a 16-bit value; the window peaks at 32767.
pub proof fn lemma_plc_table_ranges()
    ensures
        forall|i: int| 0 <= i < 80 ==> 0 < #[trigger] LPC_WIN_80[i] <= 32767,
        forall|i: int| 0 <= i < 8 ==> 0 < #[trigger] LAG_H[i] <= 32767,
        forall|i: int| 0 <= i < 8 ==> 0 < #[trigger] LAG_L[i] <= 32767,
        forall|i: int| 0 <= i < 9 ==> 0 < #[trigger] FIR_LP[i] <= 32767,
{
}

} // verus!
