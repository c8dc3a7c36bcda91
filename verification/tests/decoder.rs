//! The receive path: decoder state handling, modes and the receive QMF.

use oxideav_g722::decoder::{HigherDecoderState, LowerDecoderState, ReceiveQmf};
use oxideav_g722::tables::QMF_TAPS;
use oxideav_g722::{Decoder, Mode};

#[test]
fn fresh_decoder_starts_silent_with_zero_input() {
    // Spec page 30 (DELAYL minimum value of 32 for DETL) and the
    // adaptation feedback together guarantee that with all-zero
    // input the decoder cannot drift away from zero, but it does
    // ramp up the scale factor via leakage. We just verify the
    // first few samples sit within a tiny envelope around zero.
    let mut dec = Decoder::new(Mode::Mode1);
    let mut out = [0_i32; 32];
    let input = [0_u8; 16];
    dec.decode_into(&input, &mut out);
    for &s in &out {
        assert!(s.abs() <= 1024, "early sample {s} out of expected band");
    }
}

#[test]
fn mode_switch_round_trips() {
    let mut dec = Decoder::new(Mode::Mode1);
    assert_eq!(dec.mode(), Mode::Mode1);
    dec.set_mode(Mode::Mode2);
    assert_eq!(dec.mode(), Mode::Mode2);
    dec.set_mode(Mode::Mode3);
    assert_eq!(dec.mode(), Mode::Mode3);
}

#[test]
fn reset_clears_state() {
    let mut dec = Decoder::new(Mode::Mode1);
    // Push some random-ish octets to give the predictor non-zero
    // state.
    let xs: [u8; 32] = [
        0x47, 0x12, 0xA3, 0x7F, 0x00, 0x55, 0xAA, 0x33, 0x91, 0x6C, 0x18, 0xE5, 0x4B, 0x77,
        0x21, 0x09, 0xC0, 0xF1, 0x82, 0x3D, 0x5E, 0x6A, 0xBB, 0x14, 0x29, 0x47, 0x88, 0xD1,
        0x16, 0x52, 0x73, 0xFE,
    ];
    let _ = dec.decode(&xs);
    dec.reset();
    // After reset the state must match a fresh decoder for any
    // subsequent input.
    let mut fresh = Decoder::new(Mode::Mode1);
    let a = dec.decode(&xs);
    let b = fresh.decode(&xs);
    assert_eq!(a, b, "post-reset decoder did not match a fresh one");
}

#[test]
fn decode_into_produces_two_samples_per_octet() {
    let mut dec = Decoder::new(Mode::Mode1);
    let mut buf = [0_i32; 200];
    let input = [0x55_u8; 100];
    dec.decode_into(&input, &mut buf);
    // All samples must respect the LIMIT block range.
    for &s in &buf {
        assert!((-16384..=16383).contains(&s));
    }
}

#[test]
fn modes_produce_distinct_output_for_random_input() {
    // The three modes use different numbers of LSBs from the
    // lower-sub-band code-word; on non-trivial input they cannot
    // produce identical sample streams.
    let input: Vec<u8> = (0..256).map(|i| (i ^ 0x5A) as u8).collect();
    let a = Decoder::new(Mode::Mode1).decode(&input);
    let b = Decoder::new(Mode::Mode2).decode(&input);
    let c = Decoder::new(Mode::Mode3).decode(&input);
    assert_ne!(a, b);
    assert_ne!(b, c);
    assert_ne!(a, c);
}

#[test]
fn decoder_is_deterministic() {
    let input: Vec<u8> = (0..512).map(|i| (i * 37 + 11) as u8).collect();
    let a = Decoder::new(Mode::Mode1).decode(&input);
    let b = Decoder::new(Mode::Mode1).decode(&input);
    assert_eq!(a, b);
}

#[test]
fn lower_invqal_zero_codeword_returns_zero() {
    // RIL = 0000 yields IL4=0, sign=0, QQ4[0]=0 -> DLT must be 0.
    let dlt = LowerDecoderState::invqal(0b0000_0000, 32);
    assert_eq!(dlt, 0);
}

#[test]
fn receive_qmf_lower_band_dc_has_unity_gain() {
    // Spec-derived conformance check for the receive-QMF
    // normalisation (clause 5.2.2 / eqs 4-3, 4-4, p. 24; Table 9
    // output range, p. 25).
    //
    // The two QMF half-band branches each sum to exactly 0.5: the
    // even-indexed taps H0,H2,...,H22 and the odd-indexed taps
    // H1,H3,...,H23 each total 4096 in the Q13 representation of
    // Table 10/G.722 (= 0.5). Feeding a constant lower-sub-band
    // level R_L = D with R_H = 0, after the 12-tap delay line fills
    // both branches give WD = D * 4096, and the factor-of-2 receive
    // gain yields xout = 2 * 0.5 * D = D on both output sub-samples.
    // A unity DC gain is therefore the exact, spec-mandated result;
    // any other QMF shift count breaks it.
    let even: i64 = (0..12).map(|i| i64::from(QMF_TAPS[2 * i])).sum();
    let odd: i64 = (0..12).map(|i| i64::from(QMF_TAPS[2 * i + 1])).sum();
    assert_eq!(even, 4096, "even QMF taps must sum to 0.5 (Q13)");
    assert_eq!(odd, 4096, "odd QMF taps must sum to 0.5 (Q13)");

    let d = 4096_i32;
    let mut qmf = ReceiveQmf::new();
    // Run long enough to fill the 12-deep delay lines.
    let mut last = (0, 0);
    for _ in 0..16 {
        last = qmf.step(d, 0);
    }
    assert_eq!(
        last,
        (d, d),
        "receive QMF must have unity DC gain on the lower sub-band"
    );

    // The higher sub-band alone (R_L = 0) splits with the QMF
    // band-difference sign: xout(j) = -R_H, xout(j+1) = +R_H.
    let mut qmf_h = ReceiveQmf::new();
    let mut last_h = (0, 0);
    for _ in 0..16 {
        last_h = qmf_h.step(0, d);
    }
    assert_eq!(last_h, (-d, d), "receive QMF higher-band DC split");
}

#[test]
fn higher_invqah_zero_does_not_panic() {
    // IH = 11 (sign +, mag 1) with DETH=8 must produce a small
    // positive predictor update.
    let dh = HigherDecoderState::invqah(0b11, 8);
    assert!(dh >= 0);
}

#[test]
fn one_octet_decode_matches_decode_octet_and_mode_round_trip_restores() {
    let mut d1 = Decoder::new(Mode::Mode1);
    let _ = d1.decode(&[0x12, 0xa7, 0x5c, 0xf0]);
    let mut d2 = d1.clone();
    let (a, b) = d1.decode_octet(0x9b);
    assert_eq!(d2.decode(&[0x9b]), vec![a, b]);
    let mut d3 = d1.clone();
    d3.set_mode(Mode::Mode3);
    d3.set_mode(Mode::Mode1);
    assert_eq!(d3.decode(&[0x33, 0x44]), d1.decode(&[0x33, 0x44]));
}
