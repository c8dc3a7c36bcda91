//! Auxiliary-data channel: insertion / extraction devices.

use oxideav_g722::{
    aux_bit_rate_kbps, aux_bits_per_octet, DataExtractor, DataInserter, Decoder, Encoder, Mode,
};

#[test]
fn aux_bits_per_octet_matches_table_1() {
    // Table 1/G.722 page 3: aux channel of 0 / 8 / 16 kbit/s for
    // Modes 1 / 2 / 3. The per-octet bit count is the channel
    // rate divided by the 8 kHz octet rate.
    assert_eq!(aux_bits_per_octet(Mode::Mode1), 0);
    assert_eq!(aux_bits_per_octet(Mode::Mode2), 1);
    assert_eq!(aux_bits_per_octet(Mode::Mode3), 2);
}

#[test]
fn aux_bit_rate_kbps_matches_table_1() {
    assert_eq!(aux_bit_rate_kbps(Mode::Mode1), 0);
    assert_eq!(aux_bit_rate_kbps(Mode::Mode2), 8);
    assert_eq!(aux_bit_rate_kbps(Mode::Mode3), 16);
}

#[test]
fn aux_bits_per_octet_agrees_with_decoder_mode_discard() {
    // The data-insertion device replaces exactly the LSBs the
    // decoder is going to discard in the matching mode (clause
    // 1.4.2 + Table 2 page 7).
    for m in [Mode::Mode1, Mode::Mode2, Mode::Mode3] {
        assert_eq!(aux_bits_per_octet(m), m.lsbs_to_discard());
    }
}

#[test]
fn mode1_inserter_is_pass_through() {
    let mut ins = DataInserter::new(Mode::Mode1);
    // Even with bits queued, Mode 1 must not touch the octet.
    ins.push_aux_bits(&[true, false, true, true, false]);
    for raw in 0u8..=255 {
        assert_eq!(ins.insert(raw), raw, "mode-1 must not alter octets");
    }
    // Mode 1 does not drain the queue.
    assert_eq!(ins.queued_bits(), 5);
    assert_eq!(ins.aux_bits_drained(), 0);
    assert_eq!(ins.padding_bits_inserted(), 0);
}

#[test]
fn mode2_inserter_substitutes_il6_only() {
    // Mode 2: 1 aux bit per octet at I_L6 = bit 0.
    let mut ins = DataInserter::new(Mode::Mode2);
    ins.push_aux_bits(&[true, false, true]);
    // Audio octet with every bit set:
    let o = ins.insert(0b1111_1111);
    // I_L6 -> 1, other bits preserved.
    assert_eq!(o, 0b1111_1111);
    let o = ins.insert(0b1111_1110);
    // Aux bit '0' lands in I_L6.
    assert_eq!(o, 0b1111_1110);
    let o = ins.insert(0b0000_0000);
    // Aux bit '1' replaces I_L6.
    assert_eq!(o, 0b0000_0001);
    assert_eq!(ins.aux_bits_drained(), 3);
    assert_eq!(ins.padding_bits_inserted(), 0);
    // No bit 1 (I_L5) touched by Mode 2.
    let o = ins.insert(0b0000_0010);
    // Queue exhausted, defaults to 0 padding for I_L6 only.
    assert_eq!(o & 0b1, 0);
    // I_L5 unchanged.
    assert_eq!(o & 0b10, 0b10);
}

#[test]
fn mode3_inserter_substitutes_il5_and_il6_msb_first() {
    // Mode 3: 2 aux bits per octet. First queued bit -> I_L5
    // (bit 1, transmitted earlier), second -> I_L6 (bit 0).
    let mut ins = DataInserter::new(Mode::Mode3);
    ins.push_aux_bits(&[true, false]); // I_L5 = 1, I_L6 = 0
    let o = ins.insert(0b0000_0000);
    assert_eq!(o, 0b0000_0010, "I_L5 = 1, I_L6 = 0");
    ins.push_aux_bits(&[false, true]); // I_L5 = 0, I_L6 = 1
    let o = ins.insert(0b1111_1111);
    assert_eq!(o, 0b1111_1101, "I_L5 = 0, I_L6 = 1; rest preserved");
    assert_eq!(ins.aux_bits_drained(), 4);
}

#[test]
fn inserter_pads_with_chosen_bit_when_queue_empty() {
    let mut ins = DataInserter::new(Mode::Mode3);
    ins.set_padding_bit(true);
    let o = ins.insert(0b0000_0000);
    // Both substituted positions filled with `1`.
    assert_eq!(o, 0b0000_0011);
    assert_eq!(ins.padding_bits_inserted(), 2);
    ins.set_padding_bit(false);
    let o = ins.insert(0b1111_1111);
    // Both substituted positions filled with `0`.
    assert_eq!(o, 0b1111_1100);
    assert_eq!(ins.padding_bits_inserted(), 4);
}

#[test]
fn inserter_preserves_upper_six_bits() {
    // For an end-to-end set of octets the I_H1 I_H2 I_L1..I_L4
    // bits (positions 7..2) MUST survive the substitution.
    let mut ins = DataInserter::new(Mode::Mode3);
    ins.push_aux_bits(&vec![true; 512]);
    for raw in 0u8..=255 {
        let after = ins.insert(raw);
        assert_eq!(
            after & 0b1111_1100,
            raw & 0b1111_1100,
            "upper 6 bits of 0x{raw:02x} altered to 0x{after:02x}"
        );
    }
}

#[test]
fn extractor_pops_bits_in_msb_first_order_for_mode3() {
    // 0b...10 in the LSBs => I_L5=1, I_L6=0 on the wire => first
    // pop is `true`, second is `false`.
    let mut ext = DataExtractor::new(Mode::Mode3);
    let _ = ext.extract(0b0000_0010);
    assert_eq!(ext.pop_aux_bit(), Some(true));
    assert_eq!(ext.pop_aux_bit(), Some(false));
    assert_eq!(ext.pop_aux_bit(), None);
    assert_eq!(ext.aux_bits_extracted(), 2);
}

#[test]
fn extractor_pass_through_for_mode1() {
    let mut ext = DataExtractor::new(Mode::Mode1);
    for raw in 0u8..=255 {
        let o = ext.extract(raw);
        assert_eq!(o, raw);
    }
    assert_eq!(ext.queued_bits(), 0);
    assert_eq!(ext.aux_bits_extracted(), 0);
}

#[test]
fn extractor_extracts_il6_in_mode2() {
    let mut ext = DataExtractor::new(Mode::Mode2);
    let _ = ext.extract(0b1111_1111);
    let _ = ext.extract(0b1111_1110);
    let _ = ext.extract(0b0000_0001);
    let bits = ext.drain_aux_bits(4);
    assert_eq!(bits, vec![true, false, true]);
}

#[test]
fn extract_octet_is_unchanged() {
    // The wire octet is forwarded to the SB-ADPCM decoder
    // unchanged (the decoder discards the LSBs itself in INVQBL).
    let mut ext = DataExtractor::new(Mode::Mode3);
    for raw in [0u8, 0x55, 0xAA, 0xFF, 0x3C, 0x80, 0x7F] {
        assert_eq!(ext.extract(raw), raw);
    }
}

#[test]
fn inserter_extractor_round_trip_mode2() {
    // The bits put in by the inserter must come out of the
    // extractor in the same order.
    let mut ins = DataInserter::new(Mode::Mode2);
    let mut ext = DataExtractor::new(Mode::Mode2);
    let payload: Vec<bool> = (0..64).map(|i| i % 3 == 0).collect();
    ins.push_aux_bits(&payload);
    // The audio side: feed a tone-ish input through the encoder.
    let mut enc = Encoder::new();
    let pcm: Vec<i32> = (0..128_i32).map(|i| 1000 * ((i % 8) - 4)).collect();
    let octets = enc.encode(&pcm);
    let wire = ins.insert_slice(&octets);
    for &o in &wire {
        let _ = ext.extract(o);
    }
    let out_bits = ext.drain_aux_bits(payload.len());
    assert_eq!(out_bits, payload);
    assert_eq!(ins.aux_bits_drained(), payload.len() as u64);
    assert_eq!(ext.aux_bits_extracted(), payload.len() as u64);
    // Padding kicks in once the payload is exhausted (octets - 64
    // remaining octets, each with 1 padded LSB).
    let leftover_octets = octets.len() as u64 - payload.len() as u64;
    assert_eq!(ins.padding_bits_inserted(), leftover_octets);
}

#[test]
fn inserter_extractor_round_trip_mode3_lots_of_payload() {
    let mut ins = DataInserter::new(Mode::Mode3);
    let mut ext = DataExtractor::new(Mode::Mode3);
    let mut payload = Vec::with_capacity(256);
    for i in 0..256 {
        payload.push(((i * 31) ^ 0x5A) & 1 == 1);
    }
    ins.push_aux_bits(&payload);
    let mut enc = Encoder::new();
    // 256 aux bits / 2 per octet = 128 octets minimum.
    let pcm: Vec<i32> = (0..512_i32).map(|i| (i * 47 + 13) % 8000).collect();
    let octets = enc.encode(&pcm);
    let wire = ins.insert_slice(&octets);
    for &o in &wire {
        let _ = ext.extract(o);
    }
    let out_bits = ext.drain_aux_bits(payload.len());
    assert_eq!(out_bits, payload);
}

#[test]
fn audio_side_round_trip_with_data_insertion_active() {
    // Substituting LSBs is supposed to be inaudible — the decoder
    // tracks the mode, so silence with random aux data on top
    // must still decode to a small envelope around zero.
    let mut enc = Encoder::new();
    let mut ins = DataInserter::new(Mode::Mode3);
    // Aux payload: 1024 alternating bits.
    let payload: Vec<bool> = (0..1024).map(|i| i % 2 == 0).collect();
    ins.push_aux_bits(&payload);
    let octets = enc.encode(&[0_i32; 1024]);
    let wire = ins.insert_slice(&octets);
    let mut dec = Decoder::new(Mode::Mode3);
    let pcm = dec.decode(&wire);
    // Past the initial transient the LSB substitution must not
    // drive the predictor outside the silence envelope.
    for &s in &pcm[16..] {
        assert!(
            s.abs() <= 2048,
            "Mode-3 silence + aux substitution drifted: {s}"
        );
    }
}

#[test]
fn inserter_queue_persists_across_mode_switch() {
    let mut ins = DataInserter::new(Mode::Mode3);
    ins.push_aux_bits(&[true, false, true, false]);
    // Switch to Mode 2 -> only 1 bit drained per octet.
    ins.set_mode(Mode::Mode2);
    let o = ins.insert(0b0000_0000);
    assert_eq!(o, 0b0000_0001, "Mode-2 drained 1 bit (true)");
    assert_eq!(ins.queued_bits(), 3);
    // Switch to Mode 1 -> no bits drained.
    ins.set_mode(Mode::Mode1);
    let _ = ins.insert(0xFF);
    assert_eq!(ins.queued_bits(), 3);
    // Switch back to Mode 3 -> 2 bits per octet drained.
    ins.set_mode(Mode::Mode3);
    let o = ins.insert(0b0000_0000);
    // Remaining queue: [false, true, false]; pop 2 -> false, true.
    assert_eq!(o, 0b0000_0001, "I_L5 = 0, I_L6 = 1");
    assert_eq!(ins.queued_bits(), 1);
}

#[test]
fn inserter_padding_default_is_zero() {
    let mut ins = DataInserter::new(Mode::Mode2);
    // Queue empty; octet I_L6 forced to 0.
    let o = ins.insert(0b0000_0001);
    assert_eq!(o, 0b0000_0000);
    assert_eq!(ins.padding_bits_inserted(), 1);
}

#[test]
fn flush_queue_drops_pending_bits() {
    let mut ins = DataInserter::new(Mode::Mode2);
    ins.push_aux_bits(&[true; 16]);
    assert_eq!(ins.queued_bits(), 16);
    ins.flush_queue();
    assert_eq!(ins.queued_bits(), 0);
    let _ = ins.insert(0x00);
    // Drains padding (= 0) because queue is empty.
    assert_eq!(ins.padding_bits_inserted(), 1);
}

#[test]
fn insert_in_place_and_insert_into_match_insert_slice() {
    let mut ins_a = DataInserter::new(Mode::Mode3);
    let mut ins_b = DataInserter::new(Mode::Mode3);
    let mut ins_c = DataInserter::new(Mode::Mode3);
    let payload: Vec<bool> = (0..256).map(|i| (i / 7) & 1 == 0).collect();
    ins_a.push_aux_bits(&payload);
    ins_b.push_aux_bits(&payload);
    ins_c.push_aux_bits(&payload);
    let mut buf = vec![0u8; 128];
    for (i, b) in buf.iter_mut().enumerate() {
        *b = (i * 37) as u8;
    }
    let by_slice = ins_a.insert_slice(&buf);
    let mut by_into = Vec::new();
    ins_b.insert_into(&buf, &mut by_into);
    let mut by_inplace = buf.clone();
    ins_c.insert_in_place(&mut by_inplace);
    assert_eq!(by_slice, by_into);
    assert_eq!(by_slice, by_inplace);
}

#[test]
fn data_extractor_mode_round_trips_set_mode() {
    let mut ext = DataExtractor::new(Mode::Mode1);
    assert_eq!(ext.mode(), Mode::Mode1);
    ext.set_mode(Mode::Mode2);
    assert_eq!(ext.mode(), Mode::Mode2);
    ext.set_mode(Mode::Mode3);
    assert_eq!(ext.mode(), Mode::Mode3);
}

#[test]
fn drain_more_than_available_returns_what_is_there() {
    let mut ext = DataExtractor::new(Mode::Mode3);
    let _ = ext.extract(0b11);
    let bits = ext.drain_aux_bits(10);
    // Only 2 bits were extracted.
    assert_eq!(bits.len(), 2);
    assert!(bits[0]);
    assert!(bits[1]);
    assert_eq!(ext.queued_bits(), 0);
}

#[test]
fn counters_account_for_every_bit_across_calls() {
    let mut ins = DataInserter::new(Mode::Mode3);
    ins.push_aux_bits(&[true; 10]);
    let _ = ins.insert_slice(&[0u8; 3]);
    assert_eq!(ins.aux_bits_drained(), 6);
    assert_eq!(ins.queued_bits(), 4);
    ins.flush_queue();
    assert_eq!(ins.queued_bits(), 0);
    ins.push_aux_bit(false);
    ins.set_mode(Mode::Mode2);
    let mut buf = [0xffu8; 2];
    ins.insert_in_place(&mut buf);
    // pushed 11 = drained 7 + queued 0 + flushed 4; slots 8 = drained 7 + padded 1.
    assert_eq!(ins.aux_bits_drained(), 7);
    assert_eq!(ins.padding_bits_inserted(), 1);
    assert_eq!(ins.aux_bits_drained() + ins.padding_bits_inserted(), 8);
}
