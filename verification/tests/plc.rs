//! The concealment's muting schedules and repetition-period shaping.

use oxideav_g722::plc::{
    build_repetition_period, count_peaks, Analysis, Class, MuteState, Q15_ONE,
};
use oxideav_g722::plc_analysis::hpost_step;
use oxideav_g722::{Decoder, Encoder, Mode, PlcDecoder};

/// 16-bit PCM into the encoder's 15-bit input scale, then encoded.
fn encode_pcm16(enc: &mut Encoder, pcm: &[i16]) -> Vec<u8> {
    let input: Vec<i32> = pcm.iter().map(|&s| i32::from(s) >> 1).collect();
    enc.encode(&input)
}

#[test]
fn muting_schedules_match_the_figure_iv6_iv7_trajectories() {
    for (class, zero_by) in [
        (Class::Transient, 81),
        (Class::VuvTransition, 165),
        (Class::WeaklyVoiced, 305),
    ] {
        let p = class.muting_params();
        let mut m = MuteState { g: Q15_ONE, cnt: 0 };
        let mut reached = None;
        let mut prev = Q15_ONE;
        for n in 0..400 {
            let g = m.step_general(&p);
            assert!(g <= prev, "{class:?}: gain rebounded at {n}");
            assert!((0..=Q15_ONE).contains(&g));
            if g == 0 && reached.is_none() {
                reached = Some(n);
            }
            prev = g;
        }
        let reached = reached.expect("gain must reach zero");
        assert!(
            reached <= zero_by,
            "{class:?}: gain reached zero at {reached}, expected <= {zero_by}"
        );
        assert_eq!(m.g, 0);
    }
    let p = Class::Transient.muting_params();
    let mut m = MuteState { g: Q15_ONE, cnt: 0 };
    for _ in 0..80 {
        m.step_first10(p.fac1);
    }
    assert_eq!(m.g, 47);
    for _ in 0..80 {
        m.step_first10(p.cf10);
    }
    assert_eq!(m.g, 47);
}

#[test]
fn muting_params_follow_table_iv3() {
    let t = Class::Transient.muting_params();
    assert_eq!((t.inc_mute, t.fac1, t.fac2p, t.fac3p, t.cf10), (4, 409, 409, 409, 0));
    let v = Class::VuvTransition.muting_params();
    assert_eq!((v.inc_mute, v.fac1, v.fac2p, v.fac3p, v.cf10), (2, 10, 10, 399, 399));
    for c in [Class::Unvoiced, Class::WeaklyVoiced, Class::Voiced] {
        let p = c.muting_params();
        assert_eq!((p.inc_mute, p.fac1, p.fac2p, p.fac3p, p.cf10), (1, 10, 20, 190, 20));
    }
}

#[test]
fn muting_reset_restores_unity() {
    let mut m = MuteState { g: 5, cnt: 400 };
    m.reset();
    assert_eq!((m.g, m.cnt), (Q15_ONE, 0));
    // From 320 counted samples on the gain is held at zero.
    let mut late = MuteState { g: Q15_ONE, cnt: 320 };
    assert_eq!(late.step_general(&Class::Voiced.muting_params()), 0);
    assert_eq!(late.cnt, 321);
}

fn history() -> Vec<i32> {
    // A residual history whose last period holds one large spike.
    let mut e = vec![100i32; 289];
    e[288] = 5000;
    e
}

#[test]
fn voiced_repetition_period_is_the_raw_last_period() {
    let e = history();
    let a = Analysis { a: [0; 8], t0: 10, class: Class::Voiced };
    let rep = build_repetition_period(&a, &e);
    assert_eq!(rep.len(), 11);
    assert_eq!(rep, e[278..289].to_vec());
}

#[test]
fn unvoiced_repetition_period_limits_the_spike() {
    let e = history();
    let a = Analysis { a: [0; 8], t0: 10, class: Class::Unvoiced };
    let rep = build_repetition_period(&a, &e);
    assert_eq!(rep.len(), 11);
    // The spike is limited to the largest magnitude one period earlier.
    assert_eq!(rep[10], 100);
    assert!(rep[..10].iter().all(|&v| v == 100));
    // A negative spike keeps its sign.
    let mut n = history();
    n[288] = -5000;
    let rep = build_repetition_period(&a, &n);
    assert_eq!(rep[10], -100);
}

#[test]
fn count_peaks_finds_the_spike() {
    let e = history();
    // 5000 / 4 = 1250 exceeds every magnitude one period earlier.
    assert_eq!(count_peaks(&e, 10), 1);
    // A flat residual has no peak.
    assert_eq!(count_peaks(&vec![100i32; 289], 10), 0);
}

#[test]
fn good_frames_match_the_plain_decoder() {
    let octets: Vec<u8> = (0..800).map(|i| (i * 37 + 11) as u8).collect();
    let mut plain = Decoder::new(Mode::Mode1);
    let expect = plain.decode_pcm16(&octets);
    let mut plc = PlcDecoder::new(Mode::Mode1, 160);
    let mut got = Vec::new();
    for f in octets.chunks(80) {
        got.extend(plc.decode_good_frame(f));
    }
    assert_eq!(got, expect);
}

#[test]
fn concealment_output_is_bounded_and_correct_length() {
    let mut plc = PlcDecoder::new(Mode::Mode1, 160);
    let octets: Vec<u8> = (0..80).map(|i| (i * 13 + 7) as u8).collect();
    let _ = plc.decode_good_frame(&octets);
    for _ in 0..5 {
        let out = plc.conceal_erased_frame();
        assert_eq!(out.len(), 160);
    }
    let out = plc.decode_good_frame(&octets);
    assert_eq!(out.len(), 160);
}

#[test]
fn twenty_ms_frames_work_end_to_end() {
    let mut plc = PlcDecoder::new(Mode::Mode1, 320);
    let octets: Vec<u8> = (0..160).map(|i| (i * 29 + 3) as u8).collect();
    let _ = plc.decode_good_frame(&octets);
    let out = plc.conceal_erased_frame();
    assert_eq!(out.len(), 320);
    let out = plc.decode_good_frame(&octets);
    assert_eq!(out.len(), 320);
}

#[test]
fn hpost_removes_a_dc_step() {
    let (mut prev_in, mut prev_out) = (0i32, 0i32);
    let mut last = i32::MAX;
    for n in 0..400 {
        let v = hpost_step(1000, prev_in, prev_out);
        prev_in = 1000;
        prev_out = v;
        if n == 0 {
            assert!((880..=900).contains(&v), "step response head {v}");
        }
        last = v;
    }
    assert!(last.abs() <= 2, "DC not removed: residue {last}");
}

#[test]
fn voiced_concealment_continues_a_periodic_signal() {
    let period = 57usize;
    let mut enc = Encoder::new();
    let pcm: Vec<i16> = (0..4800)
        .map(|i| {
            let ph = (i % (2 * period)) as f64 / (2 * period) as f64;
            ((ph * 2.0 * core::f64::consts::PI).sin() * 6000.0) as i16
        })
        .collect();
    let octets = encode_pcm16(&mut enc, &pcm);
    let mut plc = PlcDecoder::new(Mode::Mode1, 160);
    let mut decoded: Vec<i16> = Vec::new();
    for f in octets.chunks(80) {
        if f.len() == 80 {
            decoded.extend(plc.decode_good_frame(f));
        }
    }
    let concealed = plc.conceal_erased_frame();
    let hist = &decoded[decoded.len() - 2 * period..];
    let mut num = 0f64;
    let mut d1 = 0f64;
    let mut d2 = 0f64;
    for i in 0..160 {
        let a = f64::from(concealed[i]);
        let b = f64::from(hist[i % (2 * period)]);
        num += a * b;
        d1 += a * a;
        d2 += b * b;
    }
    let corr = num / (d1.sqrt() * d2.sqrt()).max(1.0);
    assert!(corr > 0.7, "voiced concealment lost the waveform periodicity: corr {corr:.3}");
}

#[test]
fn erasure_from_reset_state_is_silent() {
    let mut plc = PlcDecoder::new(Mode::Mode1, 320);
    let out = plc.conceal_erased_frame();
    assert!(out.iter().all(|&s| s == 0), "reset-state concealment");
}

/// A decoder primed with a two-tone stream.
fn primed(frame_samples: usize) -> PlcDecoder {
    let mut enc = Encoder::new();
    let pcm: Vec<i16> = (0..4800)
        .map(|i| {
            let t = i as f64 / 16_000.0;
            let v = (2.0 * core::f64::consts::PI * 220.0 * t).sin() * 7000.0
                + (2.0 * core::f64::consts::PI * 1_760.0 * t).sin() * 2500.0;
            v as i16
        })
        .collect();
    let octets = encode_pcm16(&mut enc, &pcm);
    let mut plc = PlcDecoder::new(Mode::Mode1, frame_samples);
    for f in octets.chunks(frame_samples / 2) {
        if f.len() == frame_samples / 2 {
            let _ = plc.decode_good_frame(f);
        }
    }
    plc
}

#[test]
fn long_erasure_run_mutes_to_the_floor() {
    for frame_samples in [160, 320] {
        let mut plc = primed(frame_samples);
        let mut last = Vec::new();
        for _ in 0..12 {
            last = plc.conceal_erased_frame();
        }
        let peak = last.iter().map(|&s| i32::from(s).abs()).max().unwrap();
        assert!(peak <= 8, "{frame_samples}-sample frames: erasure run not muted (peak {peak})");
    }
}

#[test]
fn consecutive_erasures_continue_without_frame_seams() {
    let mut plc = primed(160);
    let mut all: Vec<i16> = Vec::new();
    for _ in 0..4 {
        all.extend(plc.conceal_erased_frame());
    }
    let diffs: Vec<i32> = all
        .windows(2)
        .map(|w| (i32::from(w[1]) - i32::from(w[0])).abs())
        .collect();
    for b in [160usize, 320, 480] {
        let seam = diffs[b - 1];
        let local = diffs[b - 41..b - 1]
            .iter()
            .chain(diffs[b..b + 40].iter())
            .copied()
            .max()
            .unwrap()
            .max(1);
        assert!(seam <= 4 * local, "seam at boundary {b}: step {seam} vs local scale {local}");
    }
}

#[test]
fn frame_lengths_follow_the_frame_size() {
    let plc = PlcDecoder::new(Mode::Mode2, 320);
    assert_eq!(plc.subband_frame_len(), 160);
    assert_eq!(plc.frame_samples(), 320);
    let plc = PlcDecoder::new(Mode::Mode1, 160);
    assert_eq!(plc.subband_frame_len(), 80);
    assert_eq!(plc.frame_samples(), 160);
}

#[test]
fn a_long_muted_run_stays_quiet_and_recovers() {
    // Once a long run has muted everything, the next concealed frames
    // stay at the floor, and a good frame afterwards decodes normally.
    let mut plc = primed(160);
    for _ in 0..12 {
        let _ = plc.conceal_erased_frame();
    }
    let quiet = plc.conceal_erased_frame();
    assert!(quiet.iter().all(|&s| i32::from(s).abs() <= 8));
    let octets: Vec<u8> = (0..80).map(|i| (i * 13 + 7) as u8).collect();
    let out = plc.decode_good_frame(&octets);
    assert_eq!(out.len(), 160);
}
