//! The transmit path: buffering, quantizers and the multiplexer.

use oxideav_g722::encoder::{HigherEncoderState, LowerEncoderState};
use oxideav_g722::{Decoder, Encoder, Mode};

#[test]
fn encoder_emits_one_octet_per_two_samples() {
    let mut enc = Encoder::new();
    let octets = enc.encode(&[0_i32; 16]);
    assert_eq!(octets.len(), 8);
    assert_eq!(enc.pending_samples(), 0);
}

#[test]
fn encoder_handles_odd_length_input() {
    let mut enc = Encoder::new();
    // 5 samples → 2 octets + 1 buffered sample.
    let octets = enc.encode(&[1_i32, 2, 3, 4, 5]);
    assert_eq!(octets.len(), 2);
    assert_eq!(enc.pending_samples(), 1);
    // Feeding one more sample drains the buffer and emits an
    // additional octet.
    let octets2 = enc.encode(&[6_i32]);
    assert_eq!(octets2.len(), 1);
    assert_eq!(enc.pending_samples(), 0);
}

#[test]
fn encoder_zero_input_never_emits_a_reserved_codeword() {
    // The four codewords 0b000000..0b000011 are reserved for the
    // receiver's transmission-error replacement (Table 5 note,
    // page 18) and MUST NOT be produced by the encoder.
    let mut enc = Encoder::new();
    let octets = enc.encode(&[0_i32; 4096]);
    for &o in &octets {
        let il = o & 0x3F;
        assert!(il >= 0b000100, "reserved I_L codeword 0x{:02x} emitted", il);
    }
}

#[test]
fn encoder_is_deterministic() {
    let input: Vec<i32> = (0..512_i32).map(|i| (i * 47 + 13) % 8192).collect();
    let a = Encoder::new().encode(&input);
    let b = Encoder::new().encode(&input);
    assert_eq!(a, b);
}

#[test]
fn higher_forward_quantizer_zero_difference_at_reset_picks_mh_2() {
    // QUANTH at DETH = 8: (Q2_LEVEL_1 << 3) * DETH = (564*8) * 8 / 32768
    // = 36096/32768 = 1; for WD = 0 the LDU=1 row m_H = 1 wins …
    // but for DETH = 8 the integer threshold rounds to 1, not 0,
    // so m_H = 1 IS unambiguous and chosen.
    let code = HigherEncoderState::quantize_higher(0, 8);
    let m = oxideav_g722::tables::IH2_FROM_IH[code as usize] as usize;
    assert_eq!(oxideav_g722::tables::SIH_FROM_IH[code as usize], 0);
    assert_eq!(m, 1);
    assert_eq!(code, oxideav_g722::tables::IHP2_FROM_MH[1]);
}

#[test]
fn higher_forward_quantizer_sign_branching() {
    // Just above the decision boundary, sign decides ILP vs ILN.
    let pos = HigherEncoderState::quantize_higher(10_000, 8);
    let neg = HigherEncoderState::quantize_higher(-10_000, 8);
    // Positive ⇒ top bit of 2-bit code set; negative ⇒ clear.
    assert_eq!(pos & 0b10, 0b10);
    assert_eq!(neg & 0b10, 0b00);
}

#[test]
fn reset_clears_pending_buffer_and_state() {
    let mut enc = Encoder::new();
    let _ = enc.encode(&[1_i32, 2, 3]); // leaves 1 pending
    assert_eq!(enc.pending_samples(), 1);
    enc.reset();
    assert_eq!(enc.pending_samples(), 0);

    let mut fresh = Encoder::new();
    let input: Vec<i32> = (0..256_i32).map(|i| i * 3).collect();
    let a = enc.encode(&input);
    let b = fresh.encode(&input);
    assert_eq!(a, b, "post-reset encoder must match a fresh one");
}

#[test]
fn multiplexer_bit_layout_matches_decoder() {
    // The encoder emits IH1 in bit 7 and IL6 in bit 0 (clause
    // 1.4.4). Verify by feeding a non-trivial input and
    // confirming the decoder's bit-field extraction matches the
    // encoder's packing.
    let mut enc = Encoder::new();
    let octets = enc.encode(&[1234, -1234, 4567, -4567, 8192, -8192, 100, -100]);
    for &o in &octets {
        let ih_dec = (o >> 6) & 0x3;
        let il_dec = o & 0x3F;
        assert_eq!(
            ((ih_dec & 0x3) << 6) | (il_dec & 0x3F),
            o,
            "octet 0x{o:02x} did not round-trip through the multiplexer split"
        );
    }
}

#[test]
fn encode_then_decode_sane_envelope_for_silence() {
    // An all-zero input encoded then decoded must yield an
    // all-zero (within a small adaptation envelope) output.
    let mut enc = Encoder::new();
    let octets = enc.encode(&[0_i32; 128]);
    let mut dec = Decoder::new(Mode::Mode1);
    let pcm = dec.decode(&octets);
    // After the initial transient (≈ 4 QMF-delay periods), the
    // output must sit close to zero. We allow a small envelope
    // because the encoder produces small non-zero codewords at
    // boot due to the scale factor's leakage path.
    for &s in &pcm[16..] {
        assert!(s.abs() <= 1024, "silence sample {s} outside envelope");
    }
}

#[test]
fn forward_quantizer_climbs_with_magnitude() {
    // m_L must be monotonically non-decreasing in |e_L|.
    let detl = 32;
    let mut prev: usize = 0;
    for mag in 0..2000 {
        let code = LowerEncoderState::quantize_lower(mag * 8, detl);
        // Recover m_L from the codeword via the inverse table.
        let ml = oxideav_g722::tables::IL6_FROM_IL6[code as usize] as usize;
        assert!(
            ml >= prev,
            "m_L decreased from {prev} to {ml} at |e_L|={}",
            mag * 8
        );
        prev = ml;
    }
}

#[test]
fn encode_then_decode_mode2_envelope_for_silence() {
    // With the round-207 Table-19 fix the Mode-2 inverse quantiser
    // matches the spec at RIL = 11111, so silence must still decode
    // to an envelope around zero (the encoder is unchanged — it
    // always emits Mode-1 octets — but the receiver discards the
    // lower-band LSB).
    let mut enc = Encoder::new();
    let octets = enc.encode(&[0_i32; 128]);
    let mut dec = Decoder::new(Mode::Mode2);
    let pcm = dec.decode(&octets);
    for &s in &pcm[16..] {
        assert!(
            s.abs() <= 1024,
            "Mode-2 silence sample {s} outside envelope"
        );
    }
}

#[test]
fn encode_then_decode_mode3_envelope_for_silence() {
    // Same idea for Mode 3 (two LSBs of the lower band are
    // discarded).
    let mut enc = Encoder::new();
    let octets = enc.encode(&[0_i32; 128]);
    let mut dec = Decoder::new(Mode::Mode3);
    let pcm = dec.decode(&octets);
    for &s in &pcm[16..] {
        assert!(
            s.abs() <= 1024,
            "Mode-3 silence sample {s} outside envelope"
        );
    }
}

#[test]
fn mode2_round_trip_signal_envelope() {
    // For a non-trivial tonal-ish input, the Mode-2 reconstruction
    // must stay inside a generous envelope. This guards against
    // regressions in the IL5 inverse quantiser path that the
    // round-207 transcription fix corrected: a wrong sign on
    // RIL = 11111 would drive the predictor into an entirely
    // wrong polarity and blow past the LIMIT block's ±16384 cap.
    let pcm: Vec<i32> = (0..512_i32).map(|i| 2000 * ((i % 16) - 8)).collect();
    let mut enc = Encoder::new();
    let octets = enc.encode(&pcm);
    let mut dec = Decoder::new(Mode::Mode2);
    let out = dec.decode(&octets);
    for &s in &out {
        assert!(
            (-16384..=16383).contains(&s),
            "Mode-2 reconstructed sample {s} escaped LIMIT block"
        );
    }
    // Output must also have non-trivial energy (the codec is not
    // degenerately mapping everything to zero).
    let energy: i64 = out.iter().map(|&s| i64::from(s).pow(2)).sum();
    assert!(
        energy > 1_000_000,
        "Mode-2 output energy {energy} too low — predictor likely dead"
    );
}

#[test]
fn lower_forward_quantizer_zero_difference_at_reset_picks_the_first_documented_row() {
    // The decision levels are `LDU(k) = (Q6(k) << 3) * DETL` with Q6
    // indexed from 1 as Table 14 prints it (the indexing the golden
    // encoder stream is pinned to). At reset (DETL = 32) the levels of
    // m_L = 1..3 truncate to zero, so a zero difference lands on the
    // first row whose level survives, m_L = 4, with a positive sign.
    let code = LowerEncoderState::quantize_lower(0, 32);
    let m = oxideav_g722::tables::IL6_FROM_IL6[code as usize] as usize;
    let s = oxideav_g722::tables::SIL_FROM_IL6[code as usize];
    assert_eq!(s, 0);
    assert_eq!(code, oxideav_g722::tables::ILP6_FROM_ML[m]);
    assert_eq!(m, 4);
}

#[test]
fn encode_pair_matches_a_two_sample_encode_and_reset_clears_the_pending_sample() {
    let mut e1 = Encoder::new();
    let _ = e1.encode(&[100, -200, 300, -400]);
    let mut e2 = e1.clone();
    let o = e1.encode_pair(1234, -567);
    assert_eq!(e2.encode(&[1234, -567]), vec![o]);
    let _ = e1.encode(&[5]);
    assert_eq!(e1.pending_samples(), 1);
    e1.reset();
    assert_eq!(e1.pending_samples(), 0);
    let mut fresh = Encoder::new();
    assert_eq!(e1.encode(&[10, 20, 30, 40]), fresh.encode(&[10, 20, 30, 40]));
}
