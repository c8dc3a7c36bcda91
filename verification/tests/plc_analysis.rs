//! The fixed-point LP / LTP analysis of the packet-loss concealment.

use oxideav_g722::plc_analysis::{
    autocorr, decimate, div32_q31, hpost_step, hpre_step, levinson, lp_analysis, ltp_analysis,
    ltp_analysis_with_margins, norm_corr, preferred_max, residual_step, synthesis_step,
    weight, zero_crossing_rate, LP_ORDER, TDS_SMALLER_PITCH_MARGIN_Q15,
};
use oxideav_g722::plc_tables::LPC_WIN_80;

#[test]
fn lp_analysis_of_silence_is_zero() {
    assert_eq!(lp_analysis(&[0; 80]), [0; LP_ORDER]);
}

#[test]
fn lp_analysis_whitens_a_strong_ar1_signal() {
    let mut hist = [0i32; 80];
    let mut state = 0i64;
    let mut seed = 0x1234_5678_u32;
    for slot in hist.iter_mut() {
        seed = seed.wrapping_mul(1_664_525).wrapping_add(1_013_904_223);
        let w = i64::from((seed >> 16) as i16) / 8;
        state = (state * 9) / 10 + w;
        *slot = state.clamp(-30_000, 30_000) as i32;
    }
    let a = lp_analysis(&hist);
    assert!((-4300..=-3000).contains(&a[0]), "a1 = {} not near -0.9 in Q12", a[0]);
}

#[test]
fn levinson_matches_a_double_precision_reference() {
    let mut hist = [0i32; 80];
    let mut seed = 0x9e37_79b9_u32;
    for (i, slot) in hist.iter_mut().enumerate() {
        let ph = i as f64 / 7.3;
        seed = seed.wrapping_mul(1_664_525).wrapping_add(1_013_904_223);
        let noise = i32::from((seed >> 16) as i16) / 16;
        *slot = (ph.sin() * 9000.0 + (ph * 2.1).cos() * 3000.0) as i32 + noise;
    }
    let r = autocorr(&hist, &LPC_WIN_80, LP_ORDER).unwrap();
    let got = levinson(&r, LP_ORDER);
    let rf: Vec<f64> = r.iter().map(|&v| f64::from(v)).collect();
    let mut af = [0f64; LP_ORDER];
    let mut err = rf[0];
    for i in 1..=LP_ORDER {
        let mut acc = rf[i];
        for j in 1..i {
            acc += af[j - 1] * rf[i - j];
        }
        let k = -acc / err;
        let mut na = af;
        na[i - 1] = k;
        for j in 1..i {
            na[j - 1] = af[j - 1] + k * af[i - j - 1];
        }
        af = na;
        err *= 1.0 - k * k;
    }
    for i in 0..LP_ORDER {
        let want = (af[i] * 4096.0).round() as i32;
        assert!((got[i] - want).abs() <= 4, "a{} fixed {} vs float {}", i + 1, got[i], want);
    }
}

#[test]
fn div32_q31_is_accurate_to_a_few_lsb30() {
    for (num, den) in [
        (1, 3),
        (100, 101),
        (0x1234_5678, 0x2345_6789),
        (1, i32::MAX),
        (i32::MAX - 2, i32::MAX),
    ] {
        let got = i64::from(div32_q31(num, den));
        let want = (i64::from(num) << 31) / i64::from(den);
        assert!((want - got).abs() <= 8, "div32_q31({num}, {den}) = {got}, want {want}");
    }
}

#[test]
fn decimation_fir_dc_gain_matches_the_staged_sum() {
    let zlpre = [1024i32; 288];
    let t = decimate(&zlpre);
    assert!(t[8..].iter().all(|&v| v == 1062), "DC gain drifted: {:?}", &t[6..12]);
}

#[test]
fn hpre_removes_dc_and_hpost_matches_its_pole() {
    let mut y = 0;
    let mut py = 0;
    let mut px = 0;
    for _ in 0..600 {
        y = hpre_step(1000, px, py);
        px = 1000;
        py = y;
    }
    assert!((0..=12).contains(&y), "H_pre DC residue {y}");
    let mut v = 0;
    let mut pv = 0;
    let mut pu = 0;
    for _ in 0..600 {
        v = hpost_step(1000, pu, pv);
        pu = 1000;
        pv = v;
    }
    assert!((0..=2).contains(&v), "H_post DC residue {v}");
}

#[test]
fn preferred_max_margin_zero_is_the_plain_arg_max() {
    let v = [3, -7, 12, 12, 5, 12, -1];
    assert_eq!(preferred_max(&v, 0), (2, 12));
    let w = [-4, -9, -2, -2];
    assert_eq!(preferred_max(&w, 0), (2, -2));
}

#[test]
fn preferred_max_holds_the_smaller_lag_inside_the_margin() {
    let v = [10_000, 2_000, 500, 11_600, 300];
    assert_eq!(preferred_max(&v, TDS_SMALLER_PITCH_MARGIN_Q15), (0, 10_000));
    assert_eq!(preferred_max(&v, 0), (3, 11_600));
    let w = [10_000, 2_000, 500, 11_700, 300];
    assert_eq!(preferred_max(&w, TDS_SMALLER_PITCH_MARGIN_Q15), (3, 11_700));
}

#[test]
fn preferred_max_margin_scales_negative_incumbents_toward_zero() {
    let v = [-5_000, -4_990];
    assert_eq!(preferred_max(&v, TDS_SMALLER_PITCH_MARGIN_Q15), (1, -4_990));
}

fn planted_pitch() -> [i32; 288] {
    let mut zlpre = [0i32; 288];
    for (i, slot) in zlpre.iter_mut().enumerate() {
        let ph = (i % 60) as f64 / 60.0 * core::f64::consts::TAU;
        *slot = (ph.sin() * 8000.0 + (2.0 * ph).cos() * 2500.0) as i32;
    }
    zlpre
}

#[test]
fn ltp_margins_reproduce_the_fitted_and_plain_searches() {
    let zlpre = planted_pitch();
    let fitted = ltp_analysis(&zlpre);
    let plain = ltp_analysis_with_margins(&zlpre, 0, 0);
    assert_eq!(fitted, plain, "clean single pitch must be unaffected");
    assert_eq!(fitted.0, 60);
}

#[test]
fn ltp_finds_a_planted_pitch() {
    let zlpre = planted_pitch();
    let (t0, rmax) = ltp_analysis(&zlpre);
    assert_eq!(t0, 60, "pitch missed (Rmax {rmax})");
    assert!(rmax > 29_000, "Rmax {rmax} too low for a periodic signal");
}

// ---------------------------------------------------------------------
// Edge cases and exact values of the contracts
// ---------------------------------------------------------------------

#[test]
fn autocorr_of_silence_is_none() {
    assert_eq!(autocorr(&[0; 80], &LPC_WIN_80, LP_ORDER), None);
}

#[test]
fn autocorr_rescales_a_full_scale_signal() {
    // A full-scale square wave has far more energy than 32 bits hold:
    // the result is still normalised, r(0) at full scale.
    let hist: Vec<i32> = (0..80).map(|i| if i % 2 == 0 { 32_767 } else { -32_768 }).collect();
    let r = autocorr(&hist, &LPC_WIN_80, 2).unwrap();
    assert_eq!(r.len(), 3);
    assert!(r[0] >= 0x4000_0000, "r(0) = {} not normalised", r[0]);
    assert!(r[1] < 0, "alternating signal must have a negative lag-1 correlation");
}

#[test]
fn levinson_stops_on_a_non_positive_error() {
    // r(0) = 0: the recursion stops before the first step.
    assert_eq!(levinson(&[0, 5, 5], 2), [0; LP_ORDER]);
}

#[test]
fn div32_q31_of_a_half_is_exact() {
    assert_eq!(div32_q31(1, 2), 0x4000_0000);
    assert_eq!(div32_q31(0, 7), 0);
}

#[test]
fn norm_corr_exact_values() {
    // Zero energies give zero.
    assert_eq!(norm_corr(0, 0, 0), 0);
    // Perfect correlation saturates at 32767; anti-correlation at -32767.
    assert_eq!(norm_corr(100, 100, 100), 32_767);
    assert_eq!(norm_corr(-100, 100, 100), -32_767);
    // Half: 50 / 100 in Q15.
    assert_eq!(norm_corr(50, 100, 100), 16_384);
}

#[test]
fn weight_of_silence_is_silent() {
    assert_eq!(weight(&[0; 72]), [0; 72]);
}

#[test]
fn residual_and_synthesis_invert_each_other_on_zero_memory() {
    // With zero memory both filters pass the input through unchanged.
    let a = [1000, -500, 250, 0, 0, 0, 0, 0];
    assert_eq!(residual_step(&a, 1234, &[0; LP_ORDER]), 1234);
    assert_eq!(synthesis_step(&a, 1234, &[0; LP_ORDER]), 1234);
    // One tap of history: e = x + a1 x(n-1) in Q12.
    assert_eq!(residual_step(&a, 0, &[4096, 0, 0, 0, 0, 0, 0, 0]), 1000);
    assert_eq!(synthesis_step(&a, 0, &[4096, 0, 0, 0, 0, 0, 0, 0]), -1000);
}

#[test]
fn hpost_first_step_scales_by_b0() {
    // 7303/8192 of a 1000 step, rounded: 891.
    assert_eq!(hpost_step(1000, 0, 0), 891);
    assert_eq!(hpre_step(1000, 0, 0), 1000);
}

#[test]
fn zero_crossing_rate_counts_downward_crossings() {
    let mut hist = [0i32; 81];
    for (i, slot) in hist.iter_mut().enumerate() {
        *slot = if i % 2 == 0 { 100 } else { -100 };
    }
    // Downward crossings at every odd index: 40 of them.
    assert_eq!(zero_crossing_rate(&hist), 40);
    assert_eq!(zero_crossing_rate(&[5; 81]), 0);
}
