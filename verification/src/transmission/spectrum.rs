//! DFT bin bookkeeping for the spectral measurements: which bins of an
//! `n`-sample record at a given sample rate bound a frequency band.

use vstd::prelude::*;

verus! {

/// `ceil(a / b)` for `a >= 0`, `b > 0`.
pub open spec fn ceil_div(a: int, b: int) -> int {
    if a % b == 0 {
        a / b
    } else {
        a / b + 1
    }
}

/// Lowest DFT bin of an `n`-sample record at `sample_rate_hz` whose
/// centre frequency is at or above `hz` (for band lower edges):
/// `ceil(hz n / rate)`.
pub fn bin_at_or_above_hz(n: usize, sample_rate_hz: u32, hz: u32) -> (r: usize)
    requires
        sample_rate_hz > 0,
        hz as int * n as int <= u64::MAX,
    ensures
        r == ceil_div(hz as int * n as int, sample_rate_hz as int) as usize,
{
    let p: u64 = hz as u64 * n as u64;
    let rate: u64 = sample_rate_hz as u64;
    let q: u64 = if p % rate == 0 {
        p / rate
    } else {
        assert(rate > 1);
        assert(p / rate <= p / 2) by {
            vstd::arithmetic::div_mod::lemma_div_is_ordered_by_denominator(p as int, 2, rate as int);
        }
        p / rate + 1
    };
    #[verifier::truncate]
    (q as usize)
}

/// Highest DFT bin of an `n`-sample record at `sample_rate_hz` whose
/// centre frequency is at or below `hz` (for band upper edges):
/// `floor(hz n / rate)`.
pub fn bin_at_or_below_hz(n: usize, sample_rate_hz: u32, hz: u32) -> (r: usize)
    requires
        sample_rate_hz > 0,
        hz as int * n as int <= u64::MAX,
    ensures
        r == ((hz as int * n as int) / sample_rate_hz as int) as usize,
{
    let p: u64 = hz as u64 * n as u64;
    let q: u64 = p / sample_rate_hz as u64;
    #[verifier::truncate]
    (q as usize)
}

/// The two bins bracket `hz`: the bin at or above is never below the bin
/// at or below, and exceeds it by at most one.
pub proof fn lemma_bins_bracket(n: int, rate: int, hz: int)
    requires
        rate > 0,
        n >= 0,
        hz >= 0,
    ensures
        (hz * n) / rate <= ceil_div(hz * n, rate) <= (hz * n) / rate + 1,
        ceil_div(hz * n, rate) == (hz * n) / rate <==> (hz * n) % rate == 0,
{
}

} // verus!
