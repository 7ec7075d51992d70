use tuican::canid;
use tuican::transport::gs_usb::{
    choose_device, describe_ids, host_frame, packed_id, parse_host_frame, usb_error, BitTiming, BtConst, UsbFailure,
    CAN_EFF_FLAG, ECHO_NONE, PERMISSION_HINT,
};
use tuican::transport::slcan::{encode_frame, parse_line, rate_code, setup_commands, LineBuffer};
use tuican::transport::spec::TransportSpec;
use tuican::transport::{Frame, Payload, TransportError};

/// The clock every candleLight-class adapter runs at.
const CANDLELIGHT: BtConst = BtConst {
    fclk_can: 48_000_000,
    tseg1_min: 1,
    tseg1_max: 16,
    tseg2_min: 1,
    tseg2_max: 8,
    sjw_max: 4,
    brp_min: 1,
    brp_max: 1024,
    brp_inc: 1,
};

#[test]
fn solves_the_common_bitrates_exactly() {
    for bitrate in [125_000, 250_000, 500_000, 1_000_000] {
        let t = BitTiming::solve(&CANDLELIGHT, bitrate).unwrap_or_else(|| panic!("no timing for {bitrate}"));
        let nbt = 1 + t.prop_seg + t.phase_seg1 + t.phase_seg2;
        let actual = CANDLELIGHT.fclk_can / (t.brp * nbt);
        assert_eq!(actual, bitrate, "{bitrate}: got {actual} from {t:?}");
        assert!(t.sjw >= 1 && t.sjw <= CANDLELIGHT.sjw_max);
        assert!(t.phase_seg2 >= CANDLELIGHT.tseg2_min);
    }
}

#[test]
fn sample_point_lands_where_socketcan_puts_it() {
    // 500k wants 87.5%, 1M wants 75%.
    for (bitrate, want) in [(500_000u32, 875u32), (1_000_000, 750)] {
        let t = BitTiming::solve(&CANDLELIGHT, bitrate).unwrap();
        let nbt = 1 + t.prop_seg + t.phase_seg1 + t.phase_seg2;
        let sp = (1 + t.prop_seg + t.phase_seg1) * 1000 / nbt;
        assert!(sp.abs_diff(want) <= 40, "{bitrate}: sample point {sp}, wanted ~{want}");
    }
}

#[test]
fn refuses_a_bitrate_the_clock_cannot_reach() {
    assert!(BitTiming::solve(&CANDLELIGHT, 7_000_000).is_none());
    assert!(BitTiming::solve(&CANDLELIGHT, 0).is_none());
}

#[test]
fn echo_frames_are_flagged_and_received_ones_are_not() {
    let mut b = [0u8; 20];
    b[0..4].copy_from_slice(&ECHO_NONE.to_le_bytes());
    b[4..8].copy_from_slice(&0x123u32.to_le_bytes());
    b[8] = 2;
    b[12] = 0xAB;
    b[13] = 0xCD;
    let f = parse_host_frame(&b).unwrap();
    assert!(!f.echo);
    assert_eq!(&*f.data, &[0xAB, 0xCD]);
    assert_eq!(canid::raw(f.id), 0x123);

    b[0..4].copy_from_slice(&7u32.to_le_bytes());
    assert!(parse_host_frame(&b).unwrap().echo);
}

#[test]
fn extended_ids_round_trip_through_the_packed_form() {
    let id = canid::make(0x18FF_1234, true).unwrap();
    let packed = packed_id(id);
    assert_eq!(packed & CAN_EFF_FLAG, CAN_EFF_FLAG);
    let mut b = [0u8; 20];
    b[0..4].copy_from_slice(&ECHO_NONE.to_le_bytes());
    b[4..8].copy_from_slice(&packed.to_le_bytes());
    assert_eq!(parse_host_frame(&b).unwrap().id, id);
}

#[test]
fn a_host_frame_parses_back_to_the_frame_sent() {
    let frame = Frame { id: canid::make(0x321, false).unwrap(), data: Payload::new(&[1, 2, 3]), echo: false };
    let b = host_frame(5, &frame);
    let back = parse_host_frame(&b).unwrap();
    assert_eq!(back.id, frame.id);
    assert_eq!(&*back.data, &[1, 2, 3]);
    assert!(back.echo);
}

#[test]
fn known_adapters_are_named_and_others_shown_by_id() {
    assert_eq!(describe_ids(0x1D50, 0x606F), "candleLight");
    assert_eq!(describe_ids(0xABCD, 0x0012), "abcd:0012");
}

#[test]
fn parses_a_standard_data_frame() {
    let f = parse_line(b"t1233112233").unwrap();
    assert_eq!(canid::raw(f.id), 0x123);
    assert_eq!(&*f.data, &[0x11, 0x22, 0x33]);
}

#[test]
fn parses_an_extended_frame() {
    let f = parse_line(b"T18FF12342AABB").unwrap();
    assert_eq!(canid::raw(f.id), 0x18FF_1234);
    assert!(canid::is_extended(f.id));
    assert_eq!(&*f.data, &[0xAA, 0xBB]);
}

#[test]
fn ignores_status_chatter() {
    assert!(parse_line(b"V1013").is_none());
    assert!(parse_line(b"").is_none());
}

#[test]
fn a_truncated_line_does_not_panic() {
    assert!(parse_line(b"t123").is_none());
    assert!(parse_line(b"t1238AA").is_none());
}

#[test]
fn a_remote_frame_carries_no_payload_and_a_long_length_reads_as_eight() {
    let f = parse_line(b"r1233").unwrap();
    assert!(f.data.is_empty());
    let f = parse_line(b"t12390102030405060708").unwrap();
    assert_eq!(f.data.len(), 8);
}

#[test]
fn slcan_commands_encode_the_frame() {
    let f = Frame { id: canid::make(0x123, false).unwrap(), data: Payload::new(&[0xAB, 0x01]), echo: false };
    assert_eq!(encode_frame(&f).unwrap(), b"t1232AB01\r".to_vec());
    let f = Frame { id: canid::make(0x18FF_1234, true).unwrap(), data: Payload::new(&[]), echo: false };
    assert_eq!(encode_frame(&f).unwrap(), b"T18FF12340\r".to_vec());
    let f = Frame { id: canid::make(1, false).unwrap(), data: Payload::new(&[0; 9]), echo: false };
    assert!(encode_frame(&f).is_err());
}

#[test]
fn slcan_offers_a_fixed_ladder_of_bitrates() {
    assert_eq!(rate_code(500_000), Some(b'6'));
    assert_eq!(rate_code(1_000_000), Some(b'8'));
    assert_eq!(rate_code(33_333), None);
    let cmds = setup_commands(250_000).unwrap();
    assert_eq!(cmds, vec![b"C\r".to_vec(), b"S5\r".to_vec(), b"O\r".to_vec()]);
    assert_eq!(setup_commands(33_333).unwrap_err(), TransportError::Bitrate(33_333));
}

#[test]
fn lines_come_out_of_the_buffer_one_at_a_time() {
    let mut b = LineBuffer::new();
    b.extend(b"t1231AA\rt12");
    assert_eq!(b.take_line(), Some(b"t1231AA".to_vec()));
    assert_eq!(b.take_line(), None);
    b.extend(b"31BB\r");
    assert_eq!(b.take_line(), Some(b"t1231BB".to_vec()));
}

#[test]
fn a_payload_keeps_at_most_sixty_four_bytes_and_prints_as_hex() {
    let p = Payload::new(&[0xDE, 0xAD, 0x01]);
    assert_eq!(p.len(), 3);
    assert_eq!(p.hex(), "DE AD 01");
    assert_eq!(Payload::new(&[7u8; 70]).len(), 64);
}

#[test]
fn a_bitrate_change_keeps_the_device() {
    let a = TransportSpec::GsUsb { bus: 1, address: 4, vid: 0x1D50, pid: 0x606F, bitrate: 500_000 };
    let b = a.clone().with_bitrate(250_000);
    assert_eq!(b.bitrate(), Some(250_000));
    assert!(a.same_device(&b));
    assert!(a.needs_bitrate());
    assert!(!TransportSpec::Virtual.needs_bitrate());
    assert_eq!(TransportSpec::Virtual.with_bitrate(1), TransportSpec::Virtual);
}

#[test]
fn errors_read_as_the_user_sees_them() {
    assert_eq!(TransportError::Bitrate(7).message(), "this adapter cannot do 7 bit/s");
    assert_eq!(TransportError::NotFound("x".into()).message(), "device not found: x");
    assert!(TransportError::Disconnected.is_fatal());
}

#[test]
fn identifiers_render_as_the_dbc_writes_them() {
    assert_eq!(canid::display(canid::make(0x12, false).unwrap()), "0x012");
    assert_eq!(canid::display(canid::make(0x12, true).unwrap()), "0x00000012");
    // A value too large for a standard id falls back to extended.
    assert!(canid::is_extended(canid::make(0x800, false).unwrap()));
    assert_ne!(canid::key(canid::make(0x123, false).unwrap()), canid::key(canid::make(0x123, true).unwrap()));
}

#[test]
fn a_reset_adapter_is_found_again_by_its_ids() {
    let devs = vec![(1u8, 4u8, 0x1D50u16, 0x606Fu16), (1, 9, 0x1209, 0x2323), (2, 3, 0x1D50, 0x606F)];
    // Its old slot, when it is still there.
    assert_eq!(choose_device(&devs, 2, 3, 0x1D50, 0x606F), Some(2));
    // Another address after a reset: the first device with its ids.
    assert_eq!(choose_device(&devs, 2, 7, 0x1D50, 0x606F), Some(0));
    // The old slot now holds something else: still found by its ids.
    assert_eq!(choose_device(&devs, 1, 9, 0x1D50, 0x606F), Some(0));
    assert_eq!(choose_device(&devs, 1, 4, 0x16D0, 0x117E), None);
}

#[test]
fn usb_failures_carry_their_remedy() {
    assert_eq!(usb_error(UsbFailure::Access, "x".to_string()), TransportError::Permission(PERMISSION_HINT.to_string()));
    assert_eq!(usb_error(UsbFailure::NoDevice, "x".to_string()), TransportError::Disconnected);
    match usb_error(UsbFailure::Busy, "x".to_string()) {
        TransportError::Permission(t) => assert!(t.contains("gs_usb.ko")),
        other => panic!("{other:?}"),
    }
    assert_eq!(usb_error(UsbFailure::Other, "Pipe error".to_string()), TransportError::Other("Pipe error".to_string()));
}

#[test]
fn device_limits_the_solver_cannot_search_are_refused() {
    assert!(CANDLELIGHT.is_sane());
    assert!(!BtConst { brp_inc: 0, ..CANDLELIGHT }.is_sane());
    assert!(!BtConst { brp_max: u32::MAX, ..CANDLELIGHT }.is_sane());
    assert!(!BtConst { tseg1_min: 0, ..CANDLELIGHT }.is_sane());
    assert!(!BtConst { tseg1_min: 20, ..CANDLELIGHT }.is_sane());
}
