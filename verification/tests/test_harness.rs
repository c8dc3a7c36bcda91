//! The Appendix II test harness: INFA / INFB / INFC / INFD, the two
//! configurations, and the artificial Configuration-2 sequence.

use oxideav_g722::test_harness::{
    infa, infb, infc, infd, run_configuration_1, run_configuration_2, I_HASH_IH_MASK,
    I_HASH_IH_SHIFT, I_HASH_IL_MASK, I_HASH_IL_SHIFT, RL_HASH_SAMPLE_SHIFT, RSS_BIT_POSITION,
    RSS_MASK,
};
use oxideav_g722::test_harness::appendix_ii::{
    build_cod_frame, build_i_hash_stream, higher_lsb_bit, higher_msb_bit, ih, ilr, lower_lsb5,
    lower_msb_bit, ARTIFICIAL_SEQUENCE_LEN, COD_RSS_MARKER_WORDS, LOWER_LSB_SUBSEQUENCE_LEN,
    NUM_HIGHER_LSB_SUBSEQUENCES, NUM_LOWER_LSB_SUBSEQUENCES, NUM_MSB_SUBSEQUENCES,
    SUBSEQUENCE_LEN_BITS,
};
use oxideav_g722::{Decoder, Encoder, Mode};

// -- INFA --

#[test]
fn infa_extracts_rss_lsb() {
    // X# = 0x4321 -> RS=1, XL = 0x4321 >> 1 = 0x2190.
    let r = infa(0x4321);
    assert!(r.rs);
    assert_eq!(r.xl, 0x2190);
    assert_eq!(r.xh, r.xl);
}

#[test]
fn infa_sign_extends_xl_for_negative_word() {
    // Word with MSB set -> XL must be negative.
    let r = infa(-0x6543); // arbitrary negative value.
                           // The arithmetic right shift preserves the sign.
    assert!(r.xl < 0);
    assert_eq!(r.xl, i32::from(-0x6543_i16 >> 1));
    assert_eq!(r.xh, r.xl);
}

#[test]
fn infa_rs_false_for_lsb_clear() {
    let r = infa(0x4320);
    assert!(!r.rs);
    assert_eq!(r.xl, 0x2190);
}

#[test]
fn infa_rs_handles_isolated_bit() {
    // X# = 0x0001 -> RS=1, XL=0.
    let r = infa(0x0001);
    assert!(r.rs);
    assert_eq!(r.xl, 0);
}

// -- INFB --

#[test]
fn infb_packs_il_ih_rs() {
    // RS=0, IL=0x2A (6 bits), IH=0x2 (2 bits).
    // I = (IH << 6) | IL = (0x2 << 6) | 0x2A = 0x80 | 0x2A = 0xAA.
    // I# = (I << 8) | RS = 0xAA00.
    let w = infb(0x2A, 0x2, false);
    assert_eq!(w as u16, 0xAA00);
}

#[test]
fn infb_zeroes_il_ih_when_rs_set() {
    // RS=1 -> I is forced to 0 per Figure II-4 INFB pseudo-code.
    // I# = (0 << 8) | 1 = 0x0001.
    let w = infb(0x3F, 0x3, true);
    assert_eq!(w as u16, 0x0001);
}

#[test]
fn infb_truncates_oversized_inputs() {
    // IL is a 6-bit field; the top bits must be masked.
    let w = infb(0xFF, 0xFF, false);
    // After masking IL=0x3F, IH=0x03, so I = 0xFF and I# = 0xFF00.
    assert_eq!(w as u16, 0xFF00);
}

// -- INFC --

#[test]
fn infc_extracts_ilr_ih_rs() {
    // I# = 0x6A01 -> RS=1, ILR = (0x6A01 >> 8) & 63 = 0x6A & 0x3F = 0x2A,
    // IH = 0x6A01 >> 14 = 0x6A01 / 0x4000 = 1 (0x6A01 = 0x4000 + 0x2A01).
    let r = infc(0x6A01_u16 as i16);
    assert!(r.rs);
    assert_eq!(r.ilr, 0x2A);
    assert_eq!(r.ih, 0x1);
}

#[test]
fn infc_round_trips_infb() {
    // INFC must invert INFB on the non-RSS branch.
    for il in [0_u8, 0x3F, 0x12, 0x2A] {
        for ih in [0_u8, 0x1, 0x2, 0x3] {
            for rs in [false, true] {
                let w = infb(il, ih, rs);
                let r = infc(w);
                assert_eq!(r.rs, rs, "rs mismatch (il={il}, ih={ih}, rs={rs})");
                if rs {
                    // INFB zeroes IL/IH when RS=1.
                    assert_eq!(r.ilr, 0);
                    assert_eq!(r.ih, 0);
                } else {
                    assert_eq!(r.ilr, il);
                    assert_eq!(r.ih, ih);
                }
            }
        }
    }
}

#[test]
fn infc_uses_only_the_documented_bit_fields() {
    // Bits 6..7 of I# are unused per clause II.2.3 (INFB packs
    // `(I << 8) + RS` so bits 1..7 are zero except for the
    // RSS bit at position 0). INFC must ignore them.
    let masked = (I_HASH_IH_MASK | I_HASH_IL_MASK | RSS_MASK) as i16;
    let r_clean = infc(masked);
    let r_noisy = infc(!0); // all bits set
    assert_eq!(r_clean.ilr, r_noisy.ilr);
    assert_eq!(r_clean.ih, r_noisy.ih);
    assert_eq!(r_clean.rs, r_noisy.rs);
}

// -- INFD --

#[test]
fn infd_shifts_sample_left_by_one() {
    // INFD: RL# = (RL << 1) | RS.
    let w = infd(0x1234, false);
    assert_eq!(w as u16, 0x2468);
}

#[test]
fn infd_zeroes_sample_when_rs_set() {
    // RS=1 -> RLX is forced to 0 per INFD; RL# = 0x0001.
    let w = infd(0x1234, true);
    assert_eq!(w as u16, 0x0001);
}

#[test]
fn infd_saturates_oversize_samples_at_limit_boundary() {
    // LIMIT block clamps to ±16384 per Table 9/G.722 — the LIMIT
    // upper boundary is +16383. INFD must respect that boundary;
    // an overshoot is clamped before the <<1 shift, not after.
    let w_pos = infd(40000, false);
    // 16383 << 1 = 32766 -> low 16 bits of i16 representation.
    assert_eq!((w_pos as u16) >> 1, 16383);
    let w_neg = infd(-40000, false);
    // -16384 << 1 = -32768 (= 0x8000 in 16-bit two's complement).
    assert_eq!(w_neg as u16, 0x8000);
}

// -- Encoder QMF-bypass entry point (Configuration 1) --

#[test]
fn encode_subband_pair_zero_inputs_emits_reserved_free_octet() {
    // With XL=XH=0 the forward quantisers must still pick valid
    // (non-reserved) codewords (clause 6.2.1.1 + Table 16 + clause
    // 6.2.2.1 + Table 20 of the Recommendation).
    let mut enc = Encoder::new();
    let octet = enc.encode_subband_pair(0, 0);
    let il = octet & 0x3F;
    // Reserved IL codes are 0x00..=0x03 (Table 5 note p. 18).
    assert!(
        il >= 0b0000_0100,
        "reserved IL emitted (octet=0x{octet:02x})"
    );
}

#[test]
fn encode_subband_pair_is_deterministic_for_repeated_input() {
    let mut a = Encoder::new();
    let mut b = Encoder::new();
    for i in 0..256_i32 {
        let xl = (i * 47) % 8192;
        let xh = (i * 13) % 8192;
        let oa = a.encode_subband_pair(xl, xh);
        let ob = b.encode_subband_pair(xl, xh);
        assert_eq!(oa, ob);
    }
}

#[test]
fn encode_subband_pair_responds_to_magnitude() {
    // Larger |XL| should map to a larger m_L on the lower band's
    // forward quantiser at reset state. The mapping from m_L to
    // the wire IL code isn't itself monotonic (Table 16/G.722
    // assigns codewords per scrambled order); so we recover m_L
    // via the inverse table and check the spec-level invariant.
    let mut prev_ml: usize = 0;
    for mag in 0_i32..32 {
        let mut e = Encoder::new(); // independent runs from reset.
        let octet = e.encode_subband_pair(mag * 256, 0);
        let il = (octet & 0x3F) as usize;
        let ml = oxideav_g722::tables::IL6_FROM_IL6[il] as usize;
        assert!(
            ml >= prev_ml,
            "m_L decreased from {prev_ml} to {ml} at xl={}",
            mag * 256
        );
        prev_ml = ml;
    }
}

#[test]
fn encode_subband_pair_matches_encode_pair_under_bypass() {
    // Per Appendix II.2.1 the QMF-bypassed encode of `(XL, XH)`
    // must drive the same ADPCM loops as the QMF-fed encode would
    // if the QMF were the identity on that input. Verify the
    // bypass entry point produces deterministic output and that
    // the lower / higher sub-band fields decode cleanly.
    let mut enc = Encoder::new();
    let octet = enc.encode_subband_pair(1234, 5678);
    let ih_from = (octet >> 6) & 0x3;
    let il_from = octet & 0x3F;
    // The packed octet must be reconstructible via the
    // multiplexer convention of clause 1.4.4 (p. 6).
    assert_eq!(((ih_from & 0x3) << 6) | (il_from & 0x3F), octet);
}

// -- Decoder QMF-bypass entry point (Configuration 2) --

#[test]
fn decode_subband_pair_zero_inputs_returns_bounded_rl_rh() {
    let mut dec = Decoder::new(Mode::Mode1);
    let (rl, rh) = dec.decode_subband_pair(0, 0);
    // Sub-band LIMIT blocks clamp to ±16384.
    assert!((-16384..=16383).contains(&rl));
    assert!((-16384..=16383).contains(&rh));
}

#[test]
fn decode_subband_pair_is_deterministic_per_mode() {
    for mode in [Mode::Mode1, Mode::Mode2, Mode::Mode3] {
        let mut a = Decoder::new(mode);
        let mut b = Decoder::new(mode);
        for i in 0_u8..=255 {
            let (rla, rha) = a.decode_subband_pair(i & 0x3F, (i >> 6) & 0x3);
            let (rlb, rhb) = b.decode_subband_pair(i & 0x3F, (i >> 6) & 0x3);
            assert_eq!(rla, rlb);
            assert_eq!(rha, rhb);
        }
    }
}

#[test]
fn decode_subband_pair_truncates_oversized_codewords() {
    let mut dec_full = Decoder::new(Mode::Mode1);
    let mut dec_masked = Decoder::new(Mode::Mode1);
    // The implementation MUST mask the codewords to the spec's
    // 6-bit / 2-bit fields. Feeding garbage upper bits must not
    // change behaviour.
    let (rl1, rh1) = dec_full.decode_subband_pair(0xFF, 0xFF);
    let (rl2, rh2) = dec_masked.decode_subband_pair(0x3F, 0x3);
    assert_eq!(rl1, rl2);
    assert_eq!(rh1, rh2);
}

// -- run_configuration_1 / 2 --

#[test]
fn configuration_1_handles_rss_reset_slot() {
    // First word: RSS=1 -> non-valid output (0x0001).
    // Second word: RSS=0, XL=XH=0 -> ordinary octet packed via INFB.
    let mut enc = Encoder::new();
    let inputs = vec![0x0001_i16, 0x0000_i16];
    let out = run_configuration_1(&mut enc, &inputs);
    assert_eq!(out.len(), 2);
    assert_eq!(out[0] as u16, 0x0001, "RSS slot must emit 0x0001");
    // RS bit must be zero in the second slot.
    assert_eq!((out[1] as u16) & RSS_MASK, 0);
}

#[test]
fn configuration_1_reset_path_matches_fresh_encoder() {
    // After an RSS-asserted slot the encoder state must match a
    // fresh one. Drive the same XL/XH stream through both and
    // confirm the output sequences agree from the post-RSS slot
    // onward.
    let mut enc = Encoder::new();
    // Warm up the encoder so its state is non-zero.
    for _ in 0..32 {
        enc.encode_subband_pair(1234, -1234);
    }
    let mut inputs = vec![0x0001_i16]; // RSS slot
                                              // Some payload (RSS=0 means LSB cleared).
    for i in 0..16_i16 {
        inputs.push((i * 8) << 1); // XL = i*8 after `>> 1`.
    }
    let after_rss = run_configuration_1(&mut enc, &inputs);

    let mut fresh = Encoder::new();
    let mut fresh_inputs = vec![0x0001_i16];
    for i in 0..16_i16 {
        fresh_inputs.push((i * 8) << 1);
    }
    let fresh_out = run_configuration_1(&mut fresh, &fresh_inputs);
    assert_eq!(after_rss, fresh_out);
}

#[test]
fn configuration_2_handles_rss_reset_slot() {
    let mut dec = Decoder::new(Mode::Mode1);
    let inputs = vec![0x0001_i16, 0x6A00_i16];
    let out = run_configuration_2(&mut dec, &inputs);
    assert_eq!(out.rl_hash.len(), 2);
    assert_eq!(out.rh_hash.len(), 2);
    // RSS slot emits 0x0001 on both bands.
    assert_eq!(out.rl_hash[0] as u16, 0x0001);
    assert_eq!(out.rh_hash[0] as u16, 0x0001);
    // Non-RSS slot must have RS bit clear.
    assert_eq!((out.rl_hash[1] as u16) & RSS_MASK, 0);
    assert_eq!((out.rh_hash[1] as u16) & RSS_MASK, 0);
}

#[test]
fn configuration_2_reset_path_matches_fresh_decoder() {
    let mut warmed = Decoder::new(Mode::Mode1);
    // Warm the decoder up with arbitrary codewords.
    for i in 0..64_u8 {
        warmed.decode_subband_pair(i & 0x3F, (i >> 6) & 0x3);
    }
    let mut inputs = vec![0x0001_i16];
    for i in 0..16_i16 {
        let il = (i & 0x3F) as u16;
        let ih = ((i >> 4) & 0x3) as u16;
        inputs.push(((ih << I_HASH_IH_SHIFT) | (il << I_HASH_IL_SHIFT)) as i16);
    }
    let warmed_out = run_configuration_2(&mut warmed, &inputs);

    let mut fresh = Decoder::new(Mode::Mode1);
    let fresh_out = run_configuration_2(&mut fresh, &inputs);
    assert_eq!(warmed_out, fresh_out);
}

#[test]
fn rss_bit_position_is_the_lsb() {
    // Spec is explicit: "RSS signal is located at the first LSB
    // of the input sequence" (clause II.2.3 p. 65).
    assert_eq!(RSS_BIT_POSITION, 0);
    assert_eq!(RSS_MASK, 0x0001);
}

#[test]
fn i_hash_field_positions_match_appendix_ii() {
    // INFB packs `I = (IH << 6) | IL`, then `I# = (I << 8) | RS`.
    // -> IL occupies bits 8..13 (6 bits at offset 8).
    // -> IH occupies bits 14..15 (2 bits at offset 14).
    assert_eq!(I_HASH_IL_SHIFT, 8);
    assert_eq!(I_HASH_IH_SHIFT, 14);
    assert_eq!(I_HASH_IL_MASK, 0x3F00);
    assert_eq!(I_HASH_IH_MASK, 0xC000);
    // The three fields together cover bit 0 (RSS), bits 8..13 (IL),
    // bits 14..15 (IH); the rest are unused per INFB's pack.
    let used = RSS_MASK | I_HASH_IL_MASK | I_HASH_IH_MASK;
    assert_eq!(used, 0xFF01);
}

#[test]
fn rl_hash_sample_position_matches_appendix_ii() {
    // INFD packs `RLX = R << 1`; the 15-bit sample is therefore
    // left-shifted by one position to free the LSB for VI.
    assert_eq!(RL_HASH_SAMPLE_SHIFT, 1);
}

// -- Appendix II.3.2 artificial sequence --

#[test]
fn appendix_ii_sequence_length_matches_spec() {
    // Clause II.3.2 p. 67: 16 384 data values total.
    assert_eq!(ARTIFICIAL_SEQUENCE_LEN, 16_384);
    // Sub-sequence partitioning is self-consistent.
    assert_eq!(
        NUM_MSB_SUBSEQUENCES * SUBSEQUENCE_LEN_BITS,
        ARTIFICIAL_SEQUENCE_LEN
    );
    assert_eq!(
        NUM_LOWER_LSB_SUBSEQUENCES * LOWER_LSB_SUBSEQUENCE_LEN,
        ARTIFICIAL_SEQUENCE_LEN
    );
    assert_eq!(
        NUM_HIGHER_LSB_SUBSEQUENCES * SUBSEQUENCE_LEN_BITS,
        ARTIFICIAL_SEQUENCE_LEN
    );
}

#[test]
fn appendix_ii_lower_msb_subsequence_1_prefix_matches_print() {
    // Clause II.3.2.1 p. 67 (1): "0 0 1 0 0 1 0 0 1 0 0 1 0 0 1 0 0…"
    let expected: [u8; 17] = [0, 0, 1, 0, 0, 1, 0, 0, 1, 0, 0, 1, 0, 0, 1, 0, 0];
    for (i, &e) in expected.iter().enumerate() {
        assert_eq!(lower_msb_bit(i), e, "MSB(1) bit {i}");
    }
}

#[test]
fn appendix_ii_lower_msb_subsequence_2_prefix_matches_print() {
    // (2): "1 1 1 1 0 0 0 0 1 1 1 1 0 0 0 0 1…"
    let expected: [u8; 17] = [1, 1, 1, 1, 0, 0, 0, 0, 1, 1, 1, 1, 0, 0, 0, 0, 1];
    for (i, &e) in expected.iter().enumerate() {
        assert_eq!(lower_msb_bit(SUBSEQUENCE_LEN_BITS + i), e, "MSB(2) bit {i}");
    }
}

#[test]
fn appendix_ii_lower_msb_subsequence_3_is_constant_one() {
    // (3): all 1s for 2048 bits.
    for i in 0..SUBSEQUENCE_LEN_BITS {
        assert_eq!(lower_msb_bit(2 * SUBSEQUENCE_LEN_BITS + i), 1);
    }
}

#[test]
fn appendix_ii_lower_msb_subsequence_4_prefix_matches_print() {
    // (4): "1 1 0 0 1 1 0 0 1 1 0 0 1 1 0 0 1…"
    let expected: [u8; 17] = [1, 1, 0, 0, 1, 1, 0, 0, 1, 1, 0, 0, 1, 1, 0, 0, 1];
    for (i, &e) in expected.iter().enumerate() {
        assert_eq!(
            lower_msb_bit(3 * SUBSEQUENCE_LEN_BITS + i),
            e,
            "MSB(4) bit {i}"
        );
    }
}

#[test]
fn appendix_ii_lower_msb_subsequence_5_is_alternating() {
    // (5): "1 0 1 0 1 0 …"
    for i in 0..32 {
        let expected = if i % 2 == 0 { 1 } else { 0 };
        assert_eq!(lower_msb_bit(4 * SUBSEQUENCE_LEN_BITS + i), expected);
    }
}

#[test]
fn appendix_ii_lower_msb_subsequence_6_prefix_matches_print() {
    // (6): "0 0 0 0 0 1 0 0 0 0 0 0 0 1 0 0 0…"
    // Split as (00000100)(00000100)(0) per the period-8 reading.
    let expected: [u8; 17] = [0, 0, 0, 0, 0, 1, 0, 0, 0, 0, 0, 0, 0, 1, 0, 0, 0];
    for (i, &e) in expected.iter().enumerate() {
        assert_eq!(
            lower_msb_bit(5 * SUBSEQUENCE_LEN_BITS + i),
            e,
            "MSB(6) bit {i}"
        );
    }
}

#[test]
fn appendix_ii_lower_msb_subsequence_7_prefix_matches_print() {
    // (7): "0 0 1 0 1 0 0 1 0 1 0 0 1 0 1 0 0…"
    let expected: [u8; 17] = [0, 0, 1, 0, 1, 0, 0, 1, 0, 1, 0, 0, 1, 0, 1, 0, 0];
    for (i, &e) in expected.iter().enumerate() {
        assert_eq!(
            lower_msb_bit(6 * SUBSEQUENCE_LEN_BITS + i),
            e,
            "MSB(7) bit {i}"
        );
    }
}

#[test]
fn appendix_ii_lower_msb_subsequence_8_prefix_matches_print() {
    // (8): "1 1 0 0 0 1 1 0 0 0 1 1 0 0 0 1 1…"
    let expected: [u8; 17] = [1, 1, 0, 0, 0, 1, 1, 0, 0, 0, 1, 1, 0, 0, 0, 1, 1];
    for (i, &e) in expected.iter().enumerate() {
        assert_eq!(
            lower_msb_bit(7 * SUBSEQUENCE_LEN_BITS + i),
            e,
            "MSB(8) bit {i}"
        );
    }
}

#[test]
fn appendix_ii_higher_msb_mirrors_lower_msb() {
    // Clause II.3.2.2 p. 68: "identical to those used in the MSB
    // sequence for the lower sub-band ADPCM". Spot-check a spread
    // of indices across all 8 sub-sequences.
    let stride = ARTIFICIAL_SEQUENCE_LEN / 128;
    let mut idx = 0;
    while idx < ARTIFICIAL_SEQUENCE_LEN {
        assert_eq!(higher_msb_bit(idx), lower_msb_bit(idx), "idx {idx}");
        idx += stride;
    }
}

#[test]
fn appendix_ii_higher_lsb_subsequence_1_is_constant_one() {
    for i in 0..SUBSEQUENCE_LEN_BITS {
        assert_eq!(higher_lsb_bit(i), 1);
    }
}

#[test]
fn appendix_ii_higher_lsb_subsequence_2_alternates_sixteen() {
    // 16 ones followed by 16 zeros.
    for i in 0..16 {
        assert_eq!(higher_lsb_bit(SUBSEQUENCE_LEN_BITS + i), 1);
    }
    for i in 16..32 {
        assert_eq!(higher_lsb_bit(SUBSEQUENCE_LEN_BITS + i), 0);
    }
    for i in 32..48 {
        assert_eq!(higher_lsb_bit(SUBSEQUENCE_LEN_BITS + i), 1);
    }
}

#[test]
fn appendix_ii_higher_lsb_subsequence_3_is_constant_zero() {
    for i in 0..SUBSEQUENCE_LEN_BITS {
        assert_eq!(higher_lsb_bit(2 * SUBSEQUENCE_LEN_BITS + i), 0);
    }
}

#[test]
fn appendix_ii_higher_lsb_subsequence_4_alternates_eight() {
    for i in 0..8 {
        assert_eq!(higher_lsb_bit(3 * SUBSEQUENCE_LEN_BITS + i), 1);
    }
    for i in 8..16 {
        assert_eq!(higher_lsb_bit(3 * SUBSEQUENCE_LEN_BITS + i), 0);
    }
}

#[test]
fn appendix_ii_higher_lsb_subsequence_6_alternates_four() {
    for i in 0..4 {
        assert_eq!(higher_lsb_bit(5 * SUBSEQUENCE_LEN_BITS + i), 1);
    }
    for i in 4..8 {
        assert_eq!(higher_lsb_bit(5 * SUBSEQUENCE_LEN_BITS + i), 0);
    }
}

#[test]
fn appendix_ii_higher_lsb_subsequence_8_alternates_two() {
    for i in 0..2 {
        assert_eq!(higher_lsb_bit(7 * SUBSEQUENCE_LEN_BITS + i), 1);
    }
    for i in 2..4 {
        assert_eq!(higher_lsb_bit(7 * SUBSEQUENCE_LEN_BITS + i), 0);
    }
}

#[test]
fn appendix_ii_lower_lsb5_subsequence_1_is_constant_31() {
    // Table II-4 (1): 31 31 31 …
    for i in 0..LOWER_LSB_SUBSEQUENCE_LEN {
        assert_eq!(lower_lsb5(i), 31);
    }
}

#[test]
fn appendix_ii_lower_lsb5_subsequence_2_alternates_31_30() {
    // Table II-4 (2): sixteen 31's, sixteen 30's.
    for i in 0..16 {
        assert_eq!(lower_lsb5(LOWER_LSB_SUBSEQUENCE_LEN + i), 31);
    }
    for i in 16..32 {
        assert_eq!(lower_lsb5(LOWER_LSB_SUBSEQUENCE_LEN + i), 30);
    }
}

#[test]
fn appendix_ii_lower_lsb5_subsequence_3_is_constant_30() {
    // Table II-4 (3): 30 30 30 …
    for i in 0..LOWER_LSB_SUBSEQUENCE_LEN {
        assert_eq!(lower_lsb5(2 * LOWER_LSB_SUBSEQUENCE_LEN + i), 30);
    }
}

#[test]
fn appendix_ii_lower_lsb5_subsequence_31_is_constant_16() {
    // Table II-4 (31): 16 16 16 …
    let base = 30 * LOWER_LSB_SUBSEQUENCE_LEN; // 0-based: sub 30 == spec (31).
    for i in 0..LOWER_LSB_SUBSEQUENCE_LEN {
        assert_eq!(lower_lsb5(base + i), 16);
    }
}

#[test]
fn appendix_ii_lower_lsb5_subsequence_57_is_constant_3() {
    // Table II-4 (57): 3 3 3 … (entering the suppressed-codeword
    // range per clause II.3.2.1 p. 67 footnote).
    let base = 56 * LOWER_LSB_SUBSEQUENCE_LEN;
    for i in 0..LOWER_LSB_SUBSEQUENCE_LEN {
        assert_eq!(lower_lsb5(base + i), 3);
    }
}

#[test]
fn appendix_ii_lower_lsb5_subsequence_63_is_constant_0() {
    // Table II-4 (63): 0 0 0 …
    let base = 62 * LOWER_LSB_SUBSEQUENCE_LEN;
    for i in 0..LOWER_LSB_SUBSEQUENCE_LEN {
        assert_eq!(lower_lsb5(base + i), 0);
    }
}

#[test]
fn appendix_ii_lower_lsb5_subsequence_64_wraps_back_to_three() {
    // Table II-4 (64): "alternating sixteen 0's, sixteen 3's".
    let base = 63 * LOWER_LSB_SUBSEQUENCE_LEN;
    for i in 0..16 {
        assert_eq!(lower_lsb5(base + i), 0);
    }
    for i in 16..32 {
        assert_eq!(lower_lsb5(base + i), 3);
    }
}

#[test]
fn appendix_ii_ilr_combines_msb_and_lsb5() {
    // Spot-check the ILR composition rule ILR = (MSB << 5) | LSB5.
    for &idx in &[0_usize, 1, 100, 2047, 2048, 4095, 8192, 16383] {
        let expected = (lower_msb_bit(idx) << 5) | (lower_lsb5(idx) & 0x1F);
        assert_eq!(ilr(idx), expected);
        // ILR is always a 6-bit value.
        assert!(ilr(idx) <= 0x3F);
    }
}

#[test]
fn appendix_ii_ih_combines_msb_and_lsb() {
    // Spot-check IH = (MSB << 1) | LSB.
    for &idx in &[0_usize, 1, 100, 2047, 4095, 8192, 16383] {
        let expected = ((higher_msb_bit(idx) & 1) << 1) | (higher_lsb_bit(idx) & 1);
        assert_eq!(ih(idx), expected);
        assert!(ih(idx) <= 0x3);
    }
}

#[test]
fn appendix_ii_build_i_hash_stream_length_and_rss() {
    let s = build_i_hash_stream();
    assert_eq!(s.len(), ARTIFICIAL_SEQUENCE_LEN);
    // All data slots must have RSS cleared (LSB = 0).
    for &w in &s {
        assert_eq!((w as u16) & RSS_MASK, 0);
    }
}

#[test]
fn appendix_ii_build_i_hash_stream_round_trips_through_infc() {
    // The packed I# stream must decompose back to the same
    // (ILR, IH) values via INFC.
    let s = build_i_hash_stream();
    for (n, &w) in s.iter().enumerate() {
        let r = infc(w);
        assert!(!r.rs);
        assert_eq!(r.ilr, ilr(n), "ILR mismatch at sample {n}");
        assert_eq!(r.ih, ih(n), "IH mismatch at sample {n}");
    }
}

#[test]
fn appendix_ii_build_cod_frame_matches_file_format_size() {
    // Clause II.4.3 p. 71: T1D3.COD = 16 416 test values (= 16
    // prefix + 16384 data + 16 trailer).
    let frame = build_cod_frame();
    assert_eq!(frame.len(), 16_416);
    assert_eq!(
        frame.len(),
        2 * COD_RSS_MARKER_WORDS + ARTIFICIAL_SEQUENCE_LEN
    );
}

#[test]
fn appendix_ii_build_cod_frame_prefix_and_trailer_are_rss_markers() {
    // Clause II.4.5.2 p. 72: the 16-word prefix and the 16-word
    // trailer are all RSS-marker words (LSB=1, others=0).
    let frame = build_cod_frame();
    for w in &frame[..COD_RSS_MARKER_WORDS] {
        assert_eq!(*w as u16, 0x0001);
    }
    let trailer_start = COD_RSS_MARKER_WORDS + ARTIFICIAL_SEQUENCE_LEN;
    for w in &frame[trailer_start..] {
        assert_eq!(*w as u16, 0x0001);
    }
    // Interior payload has RSS cleared.
    for w in &frame[COD_RSS_MARKER_WORDS..trailer_start] {
        assert_eq!((*w as u16) & RSS_MASK, 0);
    }
}

#[test]
fn appendix_ii_run_through_configuration_2_drives_decoder_deterministically() {
    // The synthesised sequence drives the receive ADPCM loop
    // end-to-end through `run_configuration_2`. The output stream
    // must:
    //   1. Match the input length (one RL# / RH# per I# word).
    //   2. Be deterministic — independent decoder instances
    //      produce byte-equal output.
    //   3. Stay inside the LIMIT block's 15-bit signed range
    //      (clause 6.2.1.6 / 6.2.2.5 cap at ±16384), which after
    //      the INFD <<1 shift bounds the wire word at the i16
    //      range (with the RSS LSB clear).
    let stream = build_i_hash_stream();
    let mut dec_a = Decoder::new(Mode::Mode1);
    let mut dec_b = Decoder::new(Mode::Mode1);
    // Use a shorter prefix to keep the test fast; determinism
    // doesn't depend on the full 16384 word stream.
    let head = &stream[..2048];
    let a = run_configuration_2(&mut dec_a, head);
    let b = run_configuration_2(&mut dec_b, head);
    assert_eq!(a, b);
    assert_eq!(a.rl_hash.len(), head.len());
    assert_eq!(a.rh_hash.len(), head.len());
    for w in &a.rl_hash {
        assert_eq!((*w as u16) & RSS_MASK, 0);
    }
    for w in &a.rh_hash {
        assert_eq!((*w as u16) & RSS_MASK, 0);
    }
}

#[test]
fn appendix_ii_cod_frame_round_trip_handles_rss_brackets() {
    // Drive the full .COD frame through Configuration 2; the
    // 16-word prefix must produce non-valid (RSS=1) output words
    // and trigger the decoder reset, the 16384-word payload must
    // produce valid (RSS=0) outputs, and the 16-word trailer
    // must again produce non-valid outputs.
    let frame = build_cod_frame();
    let mut dec = Decoder::new(Mode::Mode1);
    // Truncate the payload to keep the test fast — RSS-bracket
    // behaviour is independent of the payload length.
    let mut bounded = Vec::with_capacity(2 * COD_RSS_MARKER_WORDS + 256);
    bounded.extend_from_slice(&frame[..COD_RSS_MARKER_WORDS]);
    bounded.extend_from_slice(&frame[COD_RSS_MARKER_WORDS..COD_RSS_MARKER_WORDS + 256]);
    bounded.extend_from_slice(&frame[COD_RSS_MARKER_WORDS + ARTIFICIAL_SEQUENCE_LEN..]);
    let out = run_configuration_2(&mut dec, &bounded);
    for w in &out.rl_hash[..COD_RSS_MARKER_WORDS] {
        assert_eq!(*w as u16, 0x0001, "RSS prefix RL# must be non-valid");
    }
    for w in &out.rh_hash[..COD_RSS_MARKER_WORDS] {
        assert_eq!(*w as u16, 0x0001, "RSS prefix RH# must be non-valid");
    }
    for w in &out.rl_hash[COD_RSS_MARKER_WORDS..COD_RSS_MARKER_WORDS + 256] {
        assert_eq!((*w as u16) & RSS_MASK, 0, "data RL# must be valid");
    }
    let trailer_start = COD_RSS_MARKER_WORDS + 256;
    for w in &out.rl_hash[trailer_start..] {
        assert_eq!(*w as u16, 0x0001, "RSS trailer RL# must be non-valid");
    }
    for w in &out.rh_hash[trailer_start..] {
        assert_eq!(*w as u16, 0x0001, "RSS trailer RH# must be non-valid");
    }
}

#[test]
fn appendix_ii_zero_pole_predictor_full_range_excursion_landmark() {
    // Sanity-check that the 8 MSB sub-sequences collectively
    // exercise both polarities of the zero predictor over their
    // full ± 2 range (clause II.3.2.1 p. 67: "These MSB sequences
    // are used to force the coefficients of the zero predictor
    // to vary across the entire range of ± 2").
    //
    // We only verify a structural invariant: the eight
    // sub-sequences span both bits (0 and 1) with comparable
    // density, so the predictor sees both polarities in each
    // sub-sequence except (3) constant-1.
    for sub in 0..NUM_MSB_SUBSEQUENCES {
        let mut zeros = 0;
        let mut ones = 0;
        // Sample a 1024-bit prefix of each sub-sequence.
        for i in 0..1024 {
            match lower_msb_bit(sub * SUBSEQUENCE_LEN_BITS + i) {
                0 => zeros += 1,
                1 => ones += 1,
                _ => unreachable!(),
            }
        }
        assert_eq!(zeros + ones, 1024, "sub {sub} produced bits other than 0/1");
        // Only sub-sequence (3) (= constant-1) is allowed to be
        // entirely one polarity.
        if sub != 2 {
            assert!(zeros > 0 && ones > 0, "sub {sub} stuck on a single bit");
        } else {
            assert_eq!(ones, 1024, "sub (3) must be constant 1");
        }
    }
}

#[test]
fn full_circuit_configuration_1_then_2_handles_silence() {
    // Drive Configuration-1 with silence (RSS-cleared) through the
    // encoder, route the encoder output `I#` straight into
    // Configuration-2, and confirm the decoder emits non-NaN /
    // in-range samples for both sub-bands.
    let mut enc = Encoder::new();
    let mut dec = Decoder::new(Mode::Mode1);
    let inputs: Vec<i16> = (0..64).map(|_| 0_i16).collect();
    let i_hash_stream = run_configuration_1(&mut enc, &inputs);
    let out = run_configuration_2(&mut dec, &i_hash_stream);
    // Same length on both sides.
    assert_eq!(out.rl_hash.len(), inputs.len());
    assert_eq!(out.rh_hash.len(), inputs.len());
    // All RH#/RL# words must have RS=0 (no resets requested).
    for w in &out.rl_hash {
        assert_eq!((*w as u16) & RSS_MASK, 0);
    }
    for w in &out.rh_hash {
        assert_eq!((*w as u16) & RSS_MASK, 0);
    }
}
