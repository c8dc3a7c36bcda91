//! The self-consistent sub-band coders and the polyphase QMF pair.

use oxideav_g722::band_high::HighBand;
use oxideav_g722::band_low::{dequantise, quantise, LowBand};
use oxideav_g722::qmf::{QmfAnalysis, QmfSynthesis};
use oxideav_g722::Mode;

#[test]
fn band_low_silence_stays_silent() {
    for bits in [4u8, 5, 6] {
        let mut enc = LowBand::with_bits(bits);
        let mut dec = LowBand::with_bits(bits);
        for _ in 0..400 {
            let code = enc.encode(0);
            assert_eq!(code, 0, "silence must encode to code 0 at {bits}-bit");
            let r = dec.decode(code);
            assert_eq!(r, 0, "silence must decode to 0 at {bits}-bit");
        }
    }
}

#[test]
fn encoder_and_decoder_stay_in_sync() {
    for bits in [4u8, 5, 6] {
        let mut enc = LowBand::with_bits(bits);
        let mut dec = LowBand::with_bits(bits);
        for n in 0..800 {
            let x = ((n as f32 * 0.12).sin() * 4_000.0) as i32;
            let code = enc.encode(x);
            let _ = dec.decode(code);
            // After each step, predictor s should be identical.
            assert_eq!(
                enc.prediction(), dec.prediction(),
                "predictor state diverged at n={n} bits={bits}"
            );
            assert_eq!(enc.scale_factor(), dec.scale_factor());
        }
    }
}

#[test]
fn quantise_dequantise_roundtrip() {
    for bits in [4u8, 5, 6] {
        let mag_bits = bits - 1;
        for &det in &[32, 128, 512, 2048] {
            let base_step = det * 2;
            let scale = 1i32 << (5 - mag_bits as i32);
            let step = base_step * scale;
            let max = step * ((1 << mag_bits) - 1);
            for el in (-max..=max).step_by((step as usize).max(1)) {
                let code = quantise(el, det, mag_bits);
                let rec = dequantise(code, det, mag_bits);
                assert!(
                    (rec - el).abs() <= step,
                    "quantise roundtrip too lossy bits={bits} el={el} rec={rec} det={det}"
                );
            }
        }
    }
}

#[test]
fn code_width_matches_mode() {
    assert_eq!(LowBand::for_mode(Mode::Mode1).lb_bits(), 6);
    assert_eq!(LowBand::for_mode(Mode::Mode2).lb_bits(), 5);
    assert_eq!(LowBand::for_mode(Mode::Mode3).lb_bits(), 4);
}

#[test]
fn band_high_silence_stays_silent() {
    let mut enc = HighBand::new();
    let mut dec = HighBand::new();
    for _ in 0..400 {
        let code = enc.encode(0);
        assert_eq!(code, 0);
        let r = dec.decode(code);
        assert_eq!(r, 0);
    }
}

#[test]
fn encoder_decoder_in_sync() {
    let mut enc = HighBand::new();
    let mut dec = HighBand::new();
    for n in 0..400 {
        let x = ((n as f32 * 0.25).cos() * 3_000.0) as i32;
        let code = enc.encode(x);
        let _ = dec.decode(code);
        assert_eq!(enc.prediction(), dec.prediction());
        assert_eq!(enc.scale_factor(), dec.scale_factor());
    }
}

#[test]
fn analysis_silence_stays_silent() {
    let mut qmf = QmfAnalysis::new();
    for _ in 0..50 {
        let (lo, hi) = qmf.process(0, 0);
        assert_eq!(lo, 0);
        assert_eq!(hi, 0);
    }
}

#[test]
fn synthesis_silence_stays_silent() {
    let mut qmf = QmfSynthesis::new();
    for _ in 0..50 {
        let (a, b) = qmf.process(0, 0);
        assert_eq!(a, 0);
        assert_eq!(b, 0);
    }
}

#[test]
fn qmf_roundtrip_invertible() {
    // Feed a 1 kHz sine at 16 kHz through analysis → synthesis with no
    // ADPCM in between and verify PSNR > 30 dB.
    let mut ana = QmfAnalysis::new();
    let mut syn = QmfSynthesis::new();
    let n = 800;
    let mut inputs: Vec<i16> = Vec::with_capacity(n);
    for i in 0..n {
        let t = i as f32 / 16_000.0;
        inputs.push(((2.0 * std::f32::consts::PI * 1000.0 * t).sin() * 10_000.0) as i16);
    }
    let mut outputs: Vec<i16> = Vec::with_capacity(n);
    for ch in inputs.chunks_exact(2) {
        let (lo, hi) = ana.process(ch[0], ch[1]);
        let (a, b) = syn.process(lo, hi);
        outputs.push(a);
        outputs.push(b);
    }
    let mut best = f64::NEG_INFINITY;
    let mut best_d = 0usize;
    for delay in 0..64 {
        let mut err = 0.0f64;
        let mut sig = 0.0f64;
        for i in delay..n {
            let x = inputs[i - delay] as f64;
            let y = outputs[i] as f64;
            err += (x - y).powi(2);
            sig += x * x;
        }
        let psnr = if err > 0.0 {
            10.0 * (sig / err).log10()
        } else {
            200.0
        };
        if psnr > best {
            best = psnr;
            best_d = delay;
        }
    }
    assert!(
        best > 30.0,
        "QMF not sufficiently invertible: best PSNR {best:.2} dB at delay {best_d}"
    );
}

#[test]
fn checked_decoding_agrees_with_decoding() {
    for bits in [4u8, 5, 6] {
        let mut a = LowBand::with_bits(bits);
        let mut b = LowBand::with_bits(bits);
        for n in 0..300u32 {
            let code = (n % 3) as u8;
            let got = a.decode_checked(code);
            let want = b.decode(code);
            assert_eq!(got, Some(want), "n={n} bits={bits}");
            assert_eq!(a.prediction(), b.prediction());
        }
    }
    let mut a = HighBand::new();
    let mut b = HighBand::new();
    for n in 0..300u32 {
        let code = ((n * 5 + 1) % 4) as u8;
        assert_eq!(a.decode_checked(code), Some(b.decode(code)));
    }
}
