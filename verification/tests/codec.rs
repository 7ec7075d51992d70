use std::collections::BTreeMap;

use tuican::canid;
use tuican::dbc::codec::{decode_raw, encode, extract, insert, last_byte, CodecError, FieldValue};
use tuican::dbc::mux::{active_signals, defined_selectors, raw_range};
use tuican::dbc::{MessageDef, Mux, SignalDef};

fn sig(name: &str, start: u16, len: u16, big_endian: bool, signed: bool) -> SignalDef {
    SignalDef {
        name: name.into(),
        start,
        len,
        big_endian,
        signed,
        unit: String::new(),
        choices: BTreeMap::new(),
        mux: Mux::Plain,
    }
}

fn message(len: usize, signals: Vec<SignalDef>) -> MessageDef {
    MessageDef {
        id: canid::make(0x123, false).unwrap(),
        name: "M".into(),
        len,
        cycle_time_ms: None,
        signals,
    }
}

#[test]
fn little_endian_spans_a_byte_boundary() {
    // 12 bits starting at bit 4 of byte 0: nibble of byte 0, then all of byte 1.
    let s = sig("x", 4, 12, false, false);
    assert_eq!(decode_raw(&s, &[0xF0, 0xAB]), 0xABF);
    let mut buf = vec![0u8; 2];
    insert(&mut buf, 4, 12, false, 0xABF);
    assert_eq!(buf, [0xF0, 0xAB]);
}

#[test]
fn big_endian_matches_a_hand_computed_vector() {
    // Motorola, start_bit 7 (MSB of byte 0), 16 bits => the first two bytes,
    // most significant first.
    let s = sig("x", 7, 16, true, false);
    assert_eq!(decode_raw(&s, &[0x12, 0x34]), 0x1234);

    // start_bit 3 (bit 3 of byte 0), 8 bits: the low nibble of byte 0 becomes
    // the high nibble of the value, the high nibble of byte 1 the low one.
    let s = sig("y", 3, 8, true, false);
    assert_eq!(decode_raw(&s, &[0x0A, 0xB0]), 0xAB);
}

#[test]
fn signed_values_sign_extend() {
    let s = sig("t", 0, 8, false, true);
    assert_eq!(decode_raw(&s, &[0xFF]), -1);
    assert_eq!(decode_raw(&s, &[0x80]), -128);
    let s = sig("t", 0, 4, false, true);
    assert_eq!(decode_raw(&s, &[0x0F]), -1);
}

#[test]
fn fd_payloads_beyond_eight_bytes_decode() {
    let s = sig("late", 480, 16, false, false); // byte 60
    let mut data = vec![0u8; 64];
    data[60] = 0xCD;
    data[61] = 0xAB;
    assert_eq!(decode_raw(&s, &data), 0xABCD);
}

#[test]
fn a_signal_past_the_end_is_rejected_not_truncated() {
    let msg = message(8, vec![sig("wide", 56, 16, false, false)]);
    let err = encode(&msg, None, &vec![FieldValue::Raw(1)]).unwrap_err();
    assert!(matches!(err, CodecError::Overrun { .. }));
}

#[test]
fn round_trips_through_encode_and_decode() {
    // The scale a DBC gives this signal: physical = raw * 0.5 - 100.
    let (factor, offset) = (0.5f64, -100.0f64);
    for &big in &[false, true] {
        for &signed in &[false, true] {
            for start in [0u16, 3, 7, 8, 12] {
                let s = sig("v", if big { start.max(7) } else { start }, 10, big, signed);
                let msg = message(8, vec![s.clone()]);
                let want = -50.5;
                let raw = ((want - offset) / factor).round() as i64;
                let data = encode(&msg, None, &vec![FieldValue::Raw(raw)]).unwrap();
                let got = decode_raw(&s, &data) as f64 * factor + offset;
                assert!((got - want).abs() < 1e-9, "big={big} signed={signed} start={start}");
                if signed {
                    let data = encode(&msg, None, &vec![FieldValue::Raw(-200)]).unwrap();
                    assert_eq!(decode_raw(&s, &data), -200);
                }
            }
        }
    }
}

#[test]
fn extract_reads_little_and_big_endian_fields() {
    assert_eq!(extract(&[0x34, 0x12], 0, 16, false), 0x1234);
    assert_eq!(extract(&[0x12, 0x34], 7, 16, true), 0x1234);
    // Bits beyond the data read as zero.
    assert_eq!(extract(&[0xFF], 4, 8, false), 0x0F);
}

#[test]
fn inserting_leaves_the_other_bits_alone() {
    let mut buf = vec![0xFFu8; 2];
    insert(&mut buf, 4, 4, false, 0);
    assert_eq!(buf, [0x0F, 0xFF]);
    let mut buf = vec![0u8; 2];
    insert(&mut buf, 7, 16, true, 0xBEEF);
    assert_eq!(buf, [0xBE, 0xEF]);
}

#[test]
fn the_last_byte_of_a_signal() {
    assert_eq!(last_byte(&sig("x", 4, 12, false, false)), 1);
    assert_eq!(last_byte(&sig("x", 7, 16, true, false)), 1);
    assert_eq!(last_byte(&sig("x", 480, 16, false, false)), 61);
}

#[test]
fn encode_reports_a_missing_and_an_unfit_value() {
    let msg = message(8, vec![sig("a", 0, 8, false, false), sig("b", 8, 8, false, false)]);
    assert_eq!(
        encode(&msg, None, &vec![FieldValue::Absent, FieldValue::Raw(1)]).unwrap_err(),
        CodecError::Missing("a".into())
    );
    assert_eq!(
        encode(&msg, None, &vec![FieldValue::Raw(1), FieldValue::Unfit]).unwrap_err(),
        CodecError::OutOfRange { sig: "b".into() }
    );
    assert_eq!(
        encode(&msg, None, &vec![FieldValue::Raw(0x12), FieldValue::Raw(0x34)]).unwrap(),
        vec![0x12, 0x34, 0, 0, 0, 0, 0, 0]
    );
}

#[test]
fn only_the_selected_multiplex_is_active() {
    let mut sel = sig("sel", 0, 8, false, false);
    sel.mux = Mux::Selector;
    let mut a = sig("a", 8, 8, false, false);
    a.mux = Mux::SelectedBy(vec![1]);
    let mut b = sig("b", 8, 8, false, false);
    b.mux = Mux::SelectedBy(vec![2, 3]);
    let plain = sig("p", 16, 8, false, false);
    let msg = message(8, vec![sel, a, b, plain]);
    assert!(msg.is_multiplexed());
    assert_eq!(active_signals(&msg, Some(1)), vec![0, 1, 3]);
    assert_eq!(active_signals(&msg, Some(3)), vec![0, 2, 3]);
    assert_eq!(defined_selectors(&msg), vec![1, 2, 3]);
    // Only the active signals are written: `b` is not, so its value may be missing.
    let data = encode(
        &msg,
        Some(1),
        &vec![FieldValue::Raw(1), FieldValue::Raw(0xAA), FieldValue::Absent, FieldValue::Raw(7)],
    )
    .unwrap();
    assert_eq!(data, vec![1, 0xAA, 7, 0, 0, 0, 0, 0]);
}

#[test]
fn raw_ranges_follow_width_and_sign() {
    assert_eq!(raw_range(&sig("u", 0, 8, false, false)), Some((0, 255)));
    assert_eq!(raw_range(&sig("s", 0, 8, false, true)), Some((-128, 127)));
}

#[test]
fn every_signal_of_a_message_reads_back_what_was_encoded() {
    let a = sig("a", 0, 8, false, false);
    let b = sig("b", 15, 8, true, true); // Motorola: the whole of byte 1
    let c = sig("c", 20, 12, false, true); // the high nibble of byte 2 and byte 3
    let msg = message(4, vec![a.clone(), b.clone(), c.clone()]);
    let data = encode(&msg, None, &vec![FieldValue::Raw(0xAB), FieldValue::Raw(-5), FieldValue::Raw(-1000)]).unwrap();
    assert_eq!(decode_raw(&a, &data), 0xAB);
    assert_eq!(decode_raw(&b, &data), -5);
    assert_eq!(decode_raw(&c, &data), -1000);
}

fn with_choices(entries: &[(i64, &str)]) -> SignalDef {
    let mut s = sig("Mode", 0, 8, false, true);
    for (k, v) in entries {
        s.choices.insert(*k, v.to_string());
    }
    s
}

#[test]
fn a_value_name_is_found_in_any_ascii_case() {
    let s = with_choices(&[(2, "Active"), (0, "OFF"), (-1, "fault")]);
    assert_eq!(s.choice_named("active"), Some(2));
    assert_eq!(s.choice_named("FAULT"), Some(-1));
    assert_eq!(s.choice_named("off"), Some(0));
    assert_eq!(s.choice_named("on"), None);
    assert_eq!(s.choice_named("activ"), None);
    // Two names equal but for case: the lowest raw value wins.
    let twice = with_choices(&[(7, "on"), (3, "ON")]);
    assert_eq!(twice.choice_named("On"), Some(3));
}

#[test]
fn the_prompt_hint_lists_at_most_six_values_in_raw_order() {
    assert_eq!(sig("Plain", 0, 8, false, false).choices_hint(), None);
    let s = with_choices(&[(1, "ON"), (0, "OFF"), (-2, "ERR")]);
    assert_eq!(s.choices_hint().as_deref(), Some(" (-2=ERR, 0=OFF, 1=ON)"));
    let many = with_choices(&[(0, "a"), (1, "b"), (2, "c"), (3, "d"), (4, "e"), (5, "f"), (6, "g"), (7, "h")]);
    assert_eq!(many.choices_hint().as_deref(), Some(" (0=a, 1=b, 2=c, 3=d, 4=e, 5=f)"));
}
