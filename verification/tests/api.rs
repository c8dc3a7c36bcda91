//! Crate-level entry points, the error type, and concrete instances of
//! the library's stated laws.

use oxideav_g722::band_high::HighBand;
use oxideav_g722::band_low::{dequantise, quantise, LowBand};
use oxideav_g722::basicop::{l_comp, l_deposit_h, l_extract, l_shl, norm_l, norm_s, shl};
use oxideav_g722::test_harness::{infb, infc, infd, run_configuration_1, run_configuration_2};
use oxideav_g722::{
    make_decoder, make_encoder, DataExtractor, DataInserter, Decoder, Encoder, G722Error, Mode,
};

#[test]
fn error_display_is_non_empty() {
    assert!(!G722Error::NotImplemented.message().is_empty());
}

#[test]
fn make_decoder_round_trips_mode() {
    let d = make_decoder(Mode::Mode2);
    assert_eq!(d.mode(), Mode::Mode2);
}

#[test]
fn make_encoder_returns_a_fresh_encoder() {
    let mut enc = make_encoder();
    let out = enc.encode(&[0_i32; 4]);
    assert_eq!(out.len(), 2, "encoder emits one octet per 2 PCM samples");
}

#[test]
fn error_message_is_the_documented_text() {
    assert_eq!(
        G722Error::NotImplemented.message(),
        "oxideav-g722: feature not implemented"
    );
}

#[test]
fn from_bit_rate_error_names_the_refused_rate() {
    let err = Mode::from_bit_rate(Some(32_000)).unwrap_err();
    let text = format!("{err}");
    assert!(text.contains("32000"), "error text {text:?} lacks the rate");
    assert!(matches!(err, oxideav_core::Error::Unsupported(_)));
    assert!(Mode::from_bit_rate(Some(0)).is_err());
    assert!(Mode::from_bit_rate(Some(64_001)).is_err());
}

#[test]
fn mode_default_is_mode1() {
    assert_eq!(Mode::default(), Mode::Mode1);
    assert_eq!(Mode::Mode3.lsbs_to_discard(), 2);
    assert_eq!(Mode::Mode2.lb_mag_bits(), 4);
}

#[test]
fn pack_places_the_codes_per_mode() {
    assert_eq!(Mode::Mode1.pack(0b10_1101, 0b10), 0b1011_0110);
    assert_eq!(Mode::Mode2.pack(0b1_0110, 0b01), 0b1011_0001);
    assert_eq!(Mode::Mode3.pack(0b1011, 0b11), 0b1011_0011);
    assert_eq!(Mode::Mode3.unpack(0b1011_1111), (0b1011, 0b11));
}

#[test]
fn inserted_bits_come_back_in_order_every_mode() {
    for mode in [Mode::Mode1, Mode::Mode2, Mode::Mode3] {
        let mut ins = DataInserter::new(mode);
        let mut ext = DataExtractor::new(mode);
        let payload = [true, true, false, true, false, false, true];
        ins.push_aux_bits(&payload);
        ins.set_padding_bit(true);
        let wire = ins.insert_slice(&[0x00, 0xFF, 0x5A, 0xA5, 0x3C, 0xC3]);
        let out = ext.extract_slice(&wire);
        assert_eq!(out, wire.as_slice());
        let n = mode.lsbs_to_discard() as usize * 6;
        let bits = ext.drain_aux_bits(64);
        let expected: Vec<bool> = (0..n).map(|k| if k < payload.len() { payload[k] } else { true }).collect();
        assert_eq!(bits, expected, "{mode:?}");
    }
}

#[test]
fn insert_in_place_keeps_the_audio_bits() {
    let mut ins = DataInserter::new(Mode::Mode2);
    ins.push_aux_bits(&[true, false]);
    let mut buf = [0b1010_1010u8, 0b0101_0101, 0b1111_0000];
    ins.insert_in_place(&mut buf);
    assert_eq!(buf, [0b1010_1011, 0b0101_0100, 0b1111_0000]);
    assert_eq!(ins.aux_bits_drained(), 2);
    assert_eq!(ins.padding_bits_inserted(), 1);
    assert_eq!(ins.aux_bit_rate_kbps(), 8);
}

#[test]
fn extractor_pop_and_counters() {
    let mut ext = DataExtractor::new(Mode::Mode3);
    assert_eq!(ext.pop_aux_bit(), None);
    assert_eq!(ext.extract(0b0000_0001), 0b0000_0001);
    assert_eq!(ext.queued_bits(), 2);
    assert_eq!(ext.pop_aux_bit(), Some(false));
    ext.flush_queue();
    assert_eq!(ext.queued_bits(), 0);
    assert_eq!(ext.aux_bits_extracted(), 2);
    assert_eq!(ext.aux_bit_rate_kbps(), 16);
}

#[test]
fn infd_packs_the_sample_above_the_flag() {
    assert_eq!(infd(-1, false), -2);
    assert_eq!(infd(16383, false), 32766);
    assert_eq!(infd(-16384, false), -32768);
    assert_eq!(infd(-5, true), 1);
}

#[test]
fn infc_inverts_infb_on_every_code_pair() {
    for il in 0..=255u8 {
        for ih in 0..=7u8 {
            let r = infc(infb(il, ih, false));
            assert_eq!((r.ilr, r.ih, r.rs), (il % 64, ih % 4, false));
            let r = infc(infb(il, ih, true));
            assert_eq!((r.ilr, r.ih, r.rs), (0, 0, true));
        }
    }
}

#[test]
fn configuration_runs_restart_from_an_rss_word() {
    let input: Vec<i16> = vec![1, 200, -400, 1000, 3, -8000, 16000, 0];
    let mut warm = Encoder::new();
    let _ = warm.encode(&[1234, -3333, 555, 9000, -12000, 7]);
    let mut fresh = Encoder::new();
    assert_eq!(
        run_configuration_1(&mut warm, &input),
        run_configuration_1(&mut fresh, &input)
    );
    let words = run_configuration_1(&mut Encoder::new(), &input);
    assert_eq!(words.len(), input.len());
    assert_eq!(words[0], 1);
    assert_eq!(words[4], 1);
    let mut warm_dec = Decoder::new(Mode::Mode2);
    let _ = warm_dec.decode(&[0x12, 0x9A, 0xFF]);
    let a = run_configuration_2(&mut warm_dec, &words);
    let b = run_configuration_2(&mut Decoder::new(Mode::Mode2), &words);
    assert_eq!(a, b);
    assert_eq!(a.rl_hash[0], 1);
    assert_eq!(a.rh_hash[4], 1);
}

#[test]
fn extract_comp_clears_only_the_lsb() {
    for v in [0x7FFF_FFFF, -0x7FFF_FFFF, 12345, -12345, 1, -1, i32::MIN] {
        let (hi, lo) = l_extract(v);
        assert!((0..32768).contains(&lo));
        assert_eq!(l_comp(hi, lo), v & !1);
    }
    assert_eq!(l_deposit_h(-32768), i32::MIN);
}

#[test]
fn normalisation_counts_are_exact() {
    for v in [1, -1, 5, -5, 16383, -16384, 300] {
        let n = norm_s(v);
        let x = shl(v, n);
        assert!(!(-16384..16384).contains(&x), "norm_s({v}) = {n}");
        if n > 0 {
            assert!((-16384..16384).contains(&shl(v, n - 1)));
        }
    }
    for v in [7, -7, 1 << 20, -(1 << 20), 0x3FFF_FFFF] {
        let n = norm_l(v);
        assert!(!(-0x4000_0000..0x4000_0000).contains(&l_shl(v, n)));
        assert!((-0x4000_0000..0x4000_0000).contains(&l_shl(v, n - 1)));
    }
}

#[test]
fn low_band_quantiser_loses_at_most_half_a_step() {
    // mag_bits 5, det 100: step 200.
    assert_eq!(quantise(299, 100, 5), 1);
    assert_eq!(quantise(300, 100, 5), 2);
    assert_eq!(quantise(-300, 100, 5), 32 + 2);
    assert_eq!(dequantise(34, 100, 5), -400);
    assert_eq!(dequantise(32, 100, 5), 0);
    for el in -6200..=6200 {
        let rec = dequantise(quantise(el, 100, 5), 100, 5);
        assert!((rec - el).abs() <= 100, "el {el} rec {rec}");
    }
}

#[test]
fn band_coders_stay_in_lockstep_on_a_ramp() {
    let mut enc = LowBand::for_mode(Mode::Mode3);
    let mut dec = LowBand::for_mode(Mode::Mode3);
    let mut henc = HighBand::default();
    let mut hdec = HighBand::new();
    for n in 0..600 {
        let x = (n * 37 % 4000) - 2000;
        let r = dec.decode(enc.encode(x));
        assert!((-16384..=16383).contains(&r));
        assert_eq!(enc.prediction(), dec.prediction());
        let _ = hdec.decode(henc.encode(-x / 2));
        assert_eq!(henc.scale_factor(), hdec.scale_factor());
    }
    assert_eq!(LowBand::default().lb_bits(), 6);
    assert_eq!(LowBand::with_bits(9).lb_bits(), 6);
}
