//! The integer anchors of the clause 2 transmission characteristics.

use oxideav_g722::transmission::attenuation_distortion;
use oxideav_g722::transmission::gain_variation;
use oxideav_g722::transmission::group_delay_distortion;
use oxideav_g722::transmission::reconstructing_filter;
use oxideav_g722::transmission::signal_to_distortion::{
    MeasurementTone, MEASUREMENT_TONE_HIGH_HZ, MEASUREMENT_TONE_LOW_HZ,
};
use oxideav_g722::transmission::spectrum::{bin_at_or_above_hz, bin_at_or_below_hz};
use oxideav_g722::transmission::{
    uniform_pcm_full_scale, BIT_CLOCK_HZ, IDLE_NOISE_BAND_LOW_HZ, IDLE_NOISE_NARROWBAND_HIGH_HZ,
    IDLE_NOISE_WIDEBAND_HIGH_HZ, NOMINAL_PASSBAND_HIGH_HZ, NOMINAL_PASSBAND_LOW_HZ,
    NOMINAL_REFERENCE_FREQUENCY_HZ, NOMINAL_REFERENCE_FREQUENCY_MINUS_HZ,
    NOMINAL_REFERENCE_FREQUENCY_PLUS_HZ, OCTET_CLOCK_HZ, PCM_SAMPLE_CLOCK_HZ,
    SAMPLE_CLOCK_TOLERANCE_PPM, SUBBAND_SAMPLE_CLOCK_HZ,
};

#[test]
fn breakpoints_match_figure_10() {
    assert_eq!(NOMINAL_PASSBAND_LOW_HZ, 50);
    assert_eq!(attenuation_distortion::PASSBAND_LOW_HZ, 100);
    assert_eq!(attenuation_distortion::PASSBAND_TIGHT_HIGH_HZ, 6_400);
    assert_eq!(attenuation_distortion::PASSBAND_RELAXED_HIGH_HZ, 7_000);
    assert_eq!(attenuation_distortion::MASK_HIGH_EDGE_HZ, 8_000);
}

#[test]
fn measurement_tone_matches_clause_2_5_7() {
    assert_eq!(gain_variation::MEASUREMENT_TONE_HZ, 1_000);
}

#[test]
fn measurement_tone_sits_in_the_nominal_passband() {
    assert!(gain_variation::MEASUREMENT_TONE_HZ > NOMINAL_PASSBAND_LOW_HZ);
    assert!(gain_variation::MEASUREMENT_TONE_HZ < NOMINAL_PASSBAND_HIGH_HZ);
    let delta = NOMINAL_REFERENCE_FREQUENCY_HZ.abs_diff(gain_variation::MEASUREMENT_TONE_HZ);
    assert!(delta * 50 <= gain_variation::MEASUREMENT_TONE_HZ);
}

#[test]
fn breakpoints_match_figure_13() {
    assert_eq!(NOMINAL_PASSBAND_LOW_HZ, 50);
    assert_eq!(group_delay_distortion::LOW_SHOULDER_LOW_HZ, 100);
    assert_eq!(group_delay_distortion::CORE_LOW_HZ, 300);
    assert_eq!(group_delay_distortion::CORE_HIGH_HZ, 4_000);
    assert_eq!(group_delay_distortion::HIGH_SHOULDER_HIGH_HZ, 6_400);
    assert_eq!(group_delay_distortion::MASK_HIGH_EDGE_HZ, 7_000);
}

#[test]
fn breakpoints_shared_with_attenuation_masks() {
    assert_eq!(group_delay_distortion::LOW_SHOULDER_LOW_HZ, attenuation_distortion::PASSBAND_LOW_HZ);
    assert_eq!(group_delay_distortion::HIGH_SHOULDER_HIGH_HZ, attenuation_distortion::PASSBAND_TIGHT_HIGH_HZ);
    assert_eq!(group_delay_distortion::MASK_HIGH_EDGE_HZ, attenuation_distortion::PASSBAND_RELAXED_HIGH_HZ);
}

#[test]
fn core_high_edge_is_qmf_band_split() {
    assert_eq!(group_delay_distortion::CORE_HIGH_HZ * 2, SUBBAND_SAMPLE_CLOCK_HZ);
}

#[test]
fn clock_constants_match_clause_1_6() {
    assert_eq!(BIT_CLOCK_HZ, OCTET_CLOCK_HZ * 8);
    assert_eq!(PCM_SAMPLE_CLOCK_HZ, SUBBAND_SAMPLE_CLOCK_HZ * 2);
    assert_eq!(SAMPLE_CLOCK_TOLERANCE_PPM, 50);
}

#[test]
fn uniform_pcm_full_scale_is_8192() {
    assert_eq!(uniform_pcm_full_scale(), 8192);
}

#[test]
fn passband_constants_match_clause_2_4_1() {
    assert_eq!(NOMINAL_PASSBAND_LOW_HZ, 50);
    assert_eq!(NOMINAL_PASSBAND_HIGH_HZ, 7000);
    assert!(NOMINAL_PASSBAND_LOW_HZ < NOMINAL_PASSBAND_HIGH_HZ);
    assert!(NOMINAL_PASSBAND_HIGH_HZ < SUBBAND_SAMPLE_CLOCK_HZ);
}

#[test]
fn noise_band_boundaries_align_with_passband() {
    assert_eq!(IDLE_NOISE_BAND_LOW_HZ, NOMINAL_PASSBAND_LOW_HZ);
    assert_eq!(IDLE_NOISE_NARROWBAND_HIGH_HZ, NOMINAL_PASSBAND_HIGH_HZ);
    assert_eq!(IDLE_NOISE_WIDEBAND_HIGH_HZ, 20_000);
}

#[test]
fn nominal_reference_frequency_matches_clause_2_3() {
    assert_eq!(NOMINAL_REFERENCE_FREQUENCY_HZ, 1020);
    assert_eq!(NOMINAL_REFERENCE_FREQUENCY_PLUS_HZ, 2);
    assert_eq!(NOMINAL_REFERENCE_FREQUENCY_MINUS_HZ, 7);
    assert!(NOMINAL_REFERENCE_FREQUENCY_HZ > NOMINAL_PASSBAND_LOW_HZ);
    assert!(NOMINAL_REFERENCE_FREQUENCY_HZ < NOMINAL_PASSBAND_HIGH_HZ);
}

#[test]
fn breakpoints_match_figure_12() {
    assert_eq!(NOMINAL_PASSBAND_LOW_HZ, 50);
    assert_eq!(reconstructing_filter::PASSBAND_LOW_HZ, 100);
    assert_eq!(reconstructing_filter::PASSBAND_TIGHT_HIGH_HZ, 6_400);
    assert_eq!(reconstructing_filter::PASSBAND_RELAXED_HIGH_HZ, 7_000);
    assert_eq!(reconstructing_filter::STOPBAND_ENTRY_HZ, 8_000);
    assert_eq!(reconstructing_filter::STOPBAND_SHOULDER_HZ, 9_000);
    assert_eq!(reconstructing_filter::STOPBAND_FAR_HZ, 14_000);
}

#[test]
fn measurement_tones_match_clause_2_5_5() {
    assert_eq!(MEASUREMENT_TONE_LOW_HZ, 1_000);
    assert_eq!(MEASUREMENT_TONE_HIGH_HZ, 6_000);
    assert_eq!(MeasurementTone::About1KHz.nominal_frequency_hz(), 1_000);
    assert_eq!(MeasurementTone::About6KHz.nominal_frequency_hz(), 6_000);
}

#[test]
fn tones_straddle_the_qmf_band_split() {
    let split = SUBBAND_SAMPLE_CLOCK_HZ / 2;
    assert!(MEASUREMENT_TONE_LOW_HZ < split);
    assert!(MEASUREMENT_TONE_HIGH_HZ > split);
    assert!(MEASUREMENT_TONE_HIGH_HZ < NOMINAL_PASSBAND_HIGH_HZ);
}

#[test]
fn about_one_khz_admits_the_nominal_reference_frequency() {
    let delta = NOMINAL_REFERENCE_FREQUENCY_HZ.abs_diff(MEASUREMENT_TONE_LOW_HZ);
    assert!(delta * 50 <= MEASUREMENT_TONE_LOW_HZ);
}

#[test]
fn signal_to_distortion_measurement_window_is_the_familiar_unweighted_band() {
    assert_eq!(IDLE_NOISE_BAND_LOW_HZ, 50);
    assert_eq!(IDLE_NOISE_NARROWBAND_HIGH_HZ, 7_000);
}

#[test]
fn bin_frequency_mapping_round_trips() {
    let n = 4096;
    let rate = 16_000;
    assert_eq!(bin_at_or_above_hz(n, rate, 50), 13);
    assert_eq!(bin_at_or_below_hz(n, rate, 7000), 1792);
    assert_eq!(bin_at_or_above_hz(n, rate, 4000), 1024);
    assert_eq!(bin_at_or_below_hz(n, rate, 4000), 1024);
    assert_eq!(bin_at_or_below_hz(n, rate, 8000), n / 2);
}

#[test]
fn bins_bracket_a_frequency_between_bin_centres() {
    // 50 Hz falls between bins 12 (46.9 Hz) and 13 (50.8 Hz).
    assert_eq!(bin_at_or_below_hz(4096, 16_000, 50), 12);
    assert_eq!(bin_at_or_above_hz(4096, 16_000, 50), 13);
    // Zero hertz is bin 0 from both sides.
    assert_eq!(bin_at_or_above_hz(4096, 16_000, 0), 0);
    assert_eq!(bin_at_or_below_hz(4096, 16_000, 0), 0);
}
