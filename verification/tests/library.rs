use std::collections::BTreeMap;

use tuican::app::messages::{current_index, visible_messages};
use tuican::app::received::Received;
use tuican::bus::cyclic::Cyclic;
use tuican::bus::link::{wait_budget, Retry, RetryStep, FIRST_RETRY, IDLE_SLICE, MAX_RETRY};
use tuican::bus::Stats;
use tuican::canid;
use tuican::cli::Cli;
use tuican::config::Config;
use tuican::dbc::load::{
    choices, cycle_time, decode_text, finish, is_dbc_name, message_id, mux_of, skip_dir, AttrValue, LoadError,
    MessageAttr, RawId, RawMux, RawTable, SignalValues, load_text, search_entries, keep_searching, DirEntry,
    SEARCH_DEPTH, SEARCH_LIMIT,
};
use tuican::dbc::{Database, MessageDef, Mux};
use tuican::fmt::fmt_bitrate;
use tuican::rules::load::first_existing;
use tuican::startup::{chosen_rules, spec_from_args, startup_dbc, startup_interface};
use tuican::transport::discover::{net_candidates, scan, serial_candidates, usb_candidates, NetIface, SerialPort, UsbDevice, UsbSerial};
use tuican::transport::socketcan::{describe, open_error, parse_bitrate, recv_error, state_text, IoKind};
use tuican::transport::spec::TransportSpec;
use tuican::transport::{Payload, TransportError};

fn id(v: u32) -> canid::Id {
    canid::make(v, false).unwrap()
}

#[test]
fn bitrates_read_in_the_largest_unit_that_divides_them() {
    assert_eq!(fmt_bitrate(1_000_000), "1 Mbit/s");
    assert_eq!(fmt_bitrate(500_000), "500 kbit/s");
    assert_eq!(fmt_bitrate(33_333), "33333 bit/s");
}

#[test]
fn periodic_sends_are_due_at_once_then_every_period() {
    let mut c = Cyclic::new();
    c.set("B".into(), id(2), Payload::new(&[2]), 20, 100);
    c.set("A".into(), id(1), Payload::new(&[1]), 10, 100);
    assert_eq!(c.len(), 2);
    assert_eq!(c.next_due(), Some(100));
    let due = c.take_due(100);
    // Key order: A before B.
    assert_eq!(due.iter().map(|(i, _)| canid::raw(*i)).collect::<Vec<_>>(), vec![1, 2]);
    assert_eq!(c.next_due(), Some(110));
    assert!(c.take_due(105).is_empty());
    let due = c.take_due(111);
    assert_eq!(due.len(), 1);
    assert_eq!(c.counts(), vec![("A".to_string(), 2), ("B".to_string(), 1)]);
}

#[test]
fn rearming_a_send_keeps_its_count_and_removing_it_stops_it() {
    let mut c = Cyclic::new();
    c.set("A".into(), id(1), Payload::new(&[1]), 10, 0);
    c.take_due(0);
    c.set("A".into(), id(1), Payload::new(&[9]), 50, 5);
    assert_eq!(c.counts(), vec![("A".to_string(), 1)]);
    let due = c.take_due(5);
    assert_eq!(&*due[0].1, &[9]);
    c.rearm(1000);
    assert_eq!(c.next_due(), Some(1000));
    c.remove("A");
    assert_eq!(c.len(), 0);
    assert_eq!(c.next_due(), None);
    c.set("Z".into(), id(3), Payload::new(&[]), 1, 0);
    c.clear();
    assert_eq!(c.len(), 0);
}

#[test]
fn the_bus_sleeps_until_the_next_thing_is_due() {
    assert_eq!(wait_budget(100, true, Some(105), None), 5);
    assert_eq!(wait_budget(100, true, Some(90), None), 0);
    assert_eq!(wait_budget(100, true, None, Some(105)), IDLE_SLICE);
    assert_eq!(wait_budget(100, false, None, Some(100 + 3 * IDLE_SLICE)), IDLE_SLICE);
    assert_eq!(wait_budget(100, false, None, Some(107)), 7);
}

#[test]
fn a_dropped_link_backs_off_and_comes_back() {
    let mut r = Retry::new();
    assert!(r.lost(0, true));
    assert_eq!(r.at, Some(FIRST_RETRY));
    assert_eq!(r.step(FIRST_RETRY - 1, true), RetryStep::Wait);
    assert_eq!(r.step(FIRST_RETRY, true), RetryStep::Attempt { attempt: 1 });
    r.failed(FIRST_RETRY);
    assert_eq!(r.backoff, 2 * FIRST_RETRY);
    assert_eq!(r.at, Some(3 * FIRST_RETRY));
    for _ in 0..5 {
        r.failed(0);
    }
    assert_eq!(r.backoff, MAX_RETRY);
    assert_eq!(r.step(MAX_RETRY, true), RetryStep::Attempt { attempt: 2 });
    r.succeeded();
    assert_eq!((r.at, r.backoff), (None, FIRST_RETRY));
    assert!(!r.lost(0, false));
    assert_eq!(r.at, None);
}

#[test]
fn a_due_retry_with_nothing_to_reopen_is_dropped() {
    let mut r = Retry::new();
    r.lost(0, true);
    assert_eq!(r.step(FIRST_RETRY, false), RetryStep::Abandon);
    assert_eq!(r.at, None);
}

#[test]
fn fresh_stats_count_nothing() {
    let s = Stats::default();
    assert_eq!((s.tx, s.tx_errors, s.tx_echo, s.rx, s.cyclic.len()), (0, 0, 0, 0, 0));
}

fn msg(name: &str, v: u32) -> MessageDef {
    MessageDef { id: id(v), name: name.into(), len: 8, cycle_time_ms: None, signals: vec![] }
}

#[test]
fn a_database_lists_messages_by_name_and_finds_them_by_id() {
    let db = Database::new("dbc/board.dbc".into(), vec![msg("beta", 2), msg("Alpha", 1), msg("alpha", 3)]);
    let names: Vec<&str> = db.messages.iter().map(|m| m.name.as_str()).collect();
    // Case is ignored, and equal names keep their order.
    assert_eq!(names, vec!["Alpha", "alpha", "beta"]);
    assert_eq!(db.by_id(id(2)).map(|m| m.name.as_str()), Some("beta"));
    assert!(db.by_id(canid::make(2, true).unwrap()).is_none());
    assert_eq!(db.label(), "board.dbc");
    assert!(!db.is_empty());
    assert_eq!(Database::default().label(), "(no dbc)");
}

#[test]
fn the_filter_matches_names_and_ids_ignoring_case() {
    let db = Database::new("x.dbc".into(), vec![msg("Motor", 0x100), msg("Brake", 0x2AB)]);
    assert_eq!(visible_messages(&db, ""), vec![0, 1]);
    assert_eq!(visible_messages(&db, "mot"), vec![1]);
    assert_eq!(visible_messages(&db, "2ab"), vec![0]);
    assert_eq!(visible_messages(&db, "zzz"), Vec::<usize>::new());
    assert_eq!(current_index(0, 3), None);
    assert_eq!(current_index(2, 3), Some(1));
    assert_eq!(current_index(5, 3), Some(3));
}

#[test]
fn a_file_with_no_messages_is_refused() {
    assert!(matches!(finish("e.dbc".into(), vec![]), Err(LoadError::NoMessages)));
    assert!(finish("e.dbc".into(), vec![msg("A", 1)]).is_ok());
}

fn attr(name: &str, id: RawId, value: AttrValue) -> MessageAttr {
    MessageAttr { name: name.into(), message: id, value }
}

#[test]
fn the_send_period_comes_from_the_first_usable_attribute() {
    let m = RawId::Standard(0x10);
    let attrs = vec![
        attr("GenMsgCycleTime", RawId::Standard(0x11), AttrValue::Uint(50)),
        attr("Other", m, AttrValue::Uint(7)),
        attr("GenMsgCycleTime", m, AttrValue::Int(-5)),
        attr("GenMsgCycleTime", m, AttrValue::Text("+20".into())),
        attr("GenMsgCycleTime", m, AttrValue::Uint(99)),
    ];
    assert_eq!(cycle_time(&attrs, m), Some(20));
    assert_eq!(cycle_time(&attrs, RawId::Extended(0x10)), None);
    let zero = vec![attr("GenMsgCycleTime", m, AttrValue::Double { whole: 0 })];
    assert_eq!(cycle_time(&zero, m), None);
    let real = vec![attr("GenMsgCycleTime", m, AttrValue::Double { whole: 100 })];
    assert_eq!(cycle_time(&real, m), Some(100));
}

#[test]
fn value_tables_belong_to_one_signal_of_one_message() {
    let m = RawId::Extended(0x1234);
    let descs = vec![
        RawTable::Environment,
        RawTable::Signal(SignalValues { message: m, signal: "mode".into(), values: vec![(0, "OFF".into()), (1, "ON".into()), (1, "On".into())] }),
        RawTable::Signal(SignalValues { message: m, signal: "mode".into(), values: vec![(2, "later".into())] }),
    ];
    let t = choices(&descs, m, "mode");
    let want: BTreeMap<i64, String> = BTreeMap::from([(0, "OFF".to_string()), (1, "On".to_string())]);
    assert_eq!(t, want);
    assert!(choices(&descs, m, "other").is_empty());
}

#[test]
fn file_ids_and_multiplexing_map_onto_the_model() {
    let i = message_id(RawId::Extended(0x1FFF_FFFF)).unwrap();
    assert!(canid::is_extended(i));
    assert_eq!(canid::raw(message_id(RawId::Standard(0x7FF)).unwrap()), 0x7FF);
    assert_eq!(mux_of(RawMux::Plain), Mux::Plain);
    assert_eq!(mux_of(RawMux::Multiplexor), Mux::Selector);
    assert_eq!(mux_of(RawMux::MultiplexedMultiplexor(4)), Mux::SelectedBy(vec![4]));
}

#[test]
fn latin1_files_still_read() {
    assert_eq!(decode_text("°C".as_bytes().to_vec()), "°C");
    assert_eq!(decode_text(vec![0xB0, b'C']), "°C");
}

#[test]
fn the_interface_picker_lists_what_is_plugged_in() {
    let devs = vec![
        UsbDevice { bus: 1, address: 4, ids: Some((0x1D50, 0x606F)) },
        UsbDevice { bus: 1, address: 5, ids: Some((0x046D, 0xC52B)) },
        UsbDevice { bus: 2, address: 9, ids: None },
    ];
    let cs = usb_candidates(&devs, 500_000);
    assert_eq!(cs.len(), 1);
    assert_eq!(cs[0].label, "candleLight");
    assert_eq!(cs[0].detail, "usb 001:004  1d50:606f");
    assert_eq!(cs[0].spec, TransportSpec::GsUsb { bus: 1, address: 4, vid: 0x1D50, pid: 0x606F, bitrate: 500_000 });

    let ports = vec![
        SerialPort { name: "/dev/ttyACM0".into(), usb: Some(UsbSerial { vid: 0x16D0, pid: 0x117E, product: None }) },
        SerialPort { name: "/dev/cu.Bluetooth-Incoming-Port".into(), usb: Some(UsbSerial { vid: 1, pid: 2, product: None }) },
        SerialPort { name: "/dev/ttyS0".into(), usb: None },
        SerialPort { name: "/dev/ttyACM1".into(), usb: Some(UsbSerial { vid: 1, pid: 2, product: Some("CANable".into()) }) },
    ];
    let cs = serial_candidates(&ports, 250_000);
    assert_eq!(cs.len(), 2);
    assert_eq!(cs[0].label, "slcan /dev/ttyACM0");
    assert_eq!(cs[0].detail, "16d0:117e");
    assert_eq!(cs[1].detail, "CANable");

    let nets = vec![
        NetIface { name: "vcan0".into(), state: "unknown".into(), bitrate: None },
        NetIface { name: "eth0".into(), state: "up".into(), bitrate: None },
        NetIface { name: "can0".into(), state: "up".into(), bitrate: Some(500_000) },
    ];
    let cs = net_candidates(&nets);
    assert_eq!(cs.len(), 2);
    assert_eq!(cs[0].label, "socketcan can0");
    assert_eq!(cs[0].detail, "up, 500 kbit/s");
    assert_eq!(cs[1].detail, "unknown — bring it up with `ip link`");
}

#[test]
fn socketcan_answers_read_as_the_user_sees_them() {
    assert_eq!(parse_bitrate("500000\n"), Some(500_000));
    assert_eq!(parse_bitrate("fast"), None);
    assert_eq!(state_text(Some(" up\n".into())), "up");
    assert_eq!(state_text(None), "unknown");
    assert_eq!(describe("can0", Some(1_000_000)), "socketcan can0 @ 1 Mbit/s");
    assert_eq!(describe("vcan0", None), "socketcan vcan0");
    assert!(matches!(open_error(IoKind::PermissionDenied, "can0", "x".into()), TransportError::Permission(m) if m == "no permission to open can0"));
    assert!(matches!(recv_error(IoKind::TimedOut, "x".into()), Ok(())));
    assert_eq!(recv_error(IoKind::NetworkDown, "x".into()), Err(TransportError::Disconnected));
}

fn cli() -> Cli {
    Cli { dbc: None, rules: None, interface: None, channel: None, bitrate: None, last: false, print_udev_rule: false }
}

#[test]
fn arguments_describe_an_interface_when_they_say_enough() {
    let mut a = cli();
    assert_eq!(spec_from_args(&a, &Vec::new()), None);
    a.interface = Some("vcan".into());
    assert_eq!(spec_from_args(&a, &Vec::new()), Some(TransportSpec::Virtual));
    a.interface = Some("slcan".into());
    assert_eq!(spec_from_args(&a, &Vec::new()), None);
    a.channel = Some("/dev/ttyACM0".into());
    a.bitrate = Some(250_000);
    assert_eq!(spec_from_args(&a, &Vec::new()), Some(TransportSpec::Slcan { port: "/dev/ttyACM0".into(), bitrate: 250_000 }));
    a.interface = Some("socketcan".into());
    a.channel = Some("can1".into());
    assert_eq!(spec_from_args(&a, &Vec::new()), Some(TransportSpec::SocketCan { iface: "can1".into() }));
    a.interface = Some("bogus".into());
    assert_eq!(spec_from_args(&a, &Vec::new()), None);
}

#[test]
fn last_reopens_the_remembered_session() {
    let mut config = Config::default();
    assert_eq!(config.bitrate, 500_000);
    assert!(config.mouse);
    config.dbc = Some("old.dbc".into());
    config.interface = Some(TransportSpec::Slcan { port: "p".into(), bitrate: 1 });
    config.bitrate = 125_000;
    let mut a = cli();
    assert_eq!(startup_dbc(&a, &config), None);
    assert_eq!(startup_interface(&a, &config, &Vec::new()), None);
    a.last = true;
    assert_eq!(startup_dbc(&a, &config), Some("old.dbc".into()));
    assert_eq!(startup_interface(&a, &config, &Vec::new()), Some(TransportSpec::Slcan { port: "p".into(), bitrate: 125_000 }));
    a.dbc = Some("new.dbc".into());
    assert_eq!(startup_dbc(&a, &config), Some("new.dbc".into()));
}

#[test]
fn a_dbc_that_cannot_be_found_is_not_remembered() {
    let mut config = Config::default();
    config.dbc = Some("/work/earlier.dbc".into());
    config.remember_dbc("no/such/file.dbc");
    assert_eq!(config.dbc.as_deref(), Some("/work/earlier.dbc"));
}

#[test]
fn the_dbc_search_knows_what_to_skip_and_what_to_offer() {
    assert!(skip_dir(".git"));
    assert!(skip_dir("target"));
    assert!(skip_dir("node_modules"));
    assert!(skip_dir("__pycache__"));
    assert!(!skip_dir("dbc"));
    assert!(!skip_dir("targets"));
    assert!(is_dbc_name("primary.dbc"));
    assert!(is_dbc_name("PRIMARY.DBC"));
    assert!(is_dbc_name("a.b.Dbc"));
    assert!(!is_dbc_name(".dbc")); // a hidden file with no extension
    assert!(!is_dbc_name("primary.dbcx"));
    assert!(!is_dbc_name("dbc"));
    assert!(!is_dbc_name("primary.kcd"));
}

const MS: u64 = 1_000_000;

/// The scheduler must keep firing, not just fire once: over 500 ms of the
/// bus thread's clock, waking whenever it is told to, a 20 ms send goes out
/// at its rate.
#[test]
fn cyclic_keeps_firing_at_the_requested_rate() {
    let mut c = Cyclic::new();
    c.set("M".into(), id(0x123), Payload::new(&[1, 2, 3]), 20 * MS, 0);
    let mut now = 0;
    let mut tx = 0;
    while now <= 500 * MS {
        tx += c.take_due(now).len();
        now += wait_budget(now, true, c.next_due(), None).max(1);
    }
    assert!(tx >= 10, "only {tx} frames in 500 ms at a 20 ms period");
    assert_eq!(c.counts()[0].1, tx as u64);
}

/// Resetting the board drops the link: the bus notices, retries, and picks
/// the periodic sends back up by itself.
#[test]
fn a_dropped_link_comes_back_by_itself_with_its_periodic_sends() {
    let mut c = Cyclic::new();
    c.set("M".into(), id(0x123), Payload::new(&[0]), 10 * MS, 0);
    let mut r = Retry::new();
    let mut tx = c.take_due(0).len();
    // The link drops at 30 ms; there is a device to reopen.
    assert!(r.lost(30 * MS, true), "never reported the drop as retryable");
    // The first attempt fails, the second succeeds.
    let mut now = 30 * MS;
    let mut attempts = 0;
    let mut connected = false;
    while !connected && now < 800 * MS {
        now += wait_budget(now, false, c.next_due(), r.at).max(1);
        if let RetryStep::Attempt { attempt } = r.step(now, true) {
            attempts = attempt;
            if attempt == 1 {
                r.failed(now);
            } else {
                r.succeeded();
                c.rearm(now);
                connected = true;
            }
        }
    }
    assert!(connected && attempts == 2, "never reconnected on its own");
    // And the periodic send is running again, not merely reconnected.
    let end = now + 100 * MS;
    while now <= end {
        tx += c.take_due(now).len();
        now += wait_budget(now, true, c.next_due(), None).max(1);
    }
    assert!(tx > 5, "periodic sends did not resume (tx = {tx})");
}

#[test]
fn the_rules_file_is_the_first_place_that_has_one() {
    let places = vec!["boards/tuican.rules.toml".to_string(), "tuican.rules.toml".to_string()];
    assert_eq!(first_existing(&places, &vec![false, true]).as_deref(), Some("tuican.rules.toml"));
    assert_eq!(first_existing(&places, &vec![true, true]).as_deref(), Some("boards/tuican.rules.toml"));
    assert_eq!(first_existing(&places, &vec![false, false]), None);
    // A file asked for wins when it is there; otherwise what was found.
    let found = Some("tuican.rules.toml".to_string());
    assert_eq!(chosen_rules(Some("car.toml".into()), true, found.clone()).as_deref(), Some("car.toml"));
    assert_eq!(chosen_rules(Some("car.toml".into()), false, found.clone()), found);
    assert_eq!(chosen_rules(None, false, None), None);
}

#[test]
fn a_dbc_is_remembered_by_its_resolved_path() {
    let mut c = Config::default();
    c.remember_resolved(Some("/work/dbc/primary.dbc".into()));
    assert_eq!(c.dbc.as_deref(), Some("/work/dbc/primary.dbc"));
    c.remember_resolved(None);
    assert_eq!(c.dbc.as_deref(), Some("/work/dbc/primary.dbc"));
    assert_eq!(c.bitrate, 500_000);
}

const SMALL_DBC: &str = "VERSION \"\"\n\nNS_ :\n\nBS_:\n\nBU_: ECU\n\n\
BO_ 291 Doors: 8 ECU\n SG_ Mode M : 0|8@1+ (1,0) [0|255] \"\" ECU\n SG_ Open m1 : 8|1@1+ (1,0) [0|1] \"\" ECU\n\n\
BO_ 2147484160 Engine: 8 ECU\n SG_ Rpm : 7|16@0- (0.25,0) [0|16000] \"rpm\" ECU\n\n\
BA_ \"GenMsgCycleTime\" BO_ 291 100;\n\
VAL_ 291 Mode 0 \"Idle\" 1 \"Run\" ;\n";

#[test]
fn a_dbc_file_loads_into_the_model() {
    let db = load_text("bench.dbc".into(), SMALL_DBC.as_bytes().to_vec()).expect("a valid file");
    assert_eq!(db.path, "bench.dbc");
    // Sorted by name, case folded.
    let names: Vec<&str> = db.messages.iter().map(|m| m.name.as_str()).collect();
    assert_eq!(names, vec!["Doors", "Engine"]);
    let doors = &db.messages[0];
    assert_eq!(canid::raw(doors.id), 291);
    assert!(!canid::is_extended(doors.id));
    assert_eq!(doors.len, 8);
    assert_eq!(doors.cycle_time_ms, Some(100));
    assert_eq!(doors.signals[0].name, "Mode");
    assert_eq!(doors.signals[0].mux, Mux::Selector);
    assert_eq!(doors.signals[0].choices.get(&1).map(|s| s.as_str()), Some("Run"));
    assert_eq!(doors.signals[1].mux, Mux::SelectedBy(vec![1]));
    let engine = &db.messages[1];
    assert!(canid::is_extended(engine.id));
    assert_eq!(canid::raw(engine.id), 0x200);
    assert!(engine.signals[0].big_endian && engine.signals[0].signed);
    assert_eq!((engine.signals[0].start, engine.signals[0].len), (7, 16));
    assert_eq!(engine.signals[0].unit, "rpm");
    assert_eq!(engine.cycle_time_ms, None);
}

#[test]
fn text_that_is_not_a_dbc_or_has_no_messages_is_refused() {
    assert_eq!(load_text("x.dbc".into(), b"this is not a dbc".to_vec()).err(), Some(LoadError::NotDbc));
    let empty = "VERSION \"\"\n\nNS_ :\n\nBS_:\n\nBU_:\n";
    assert_eq!(load_text("e.dbc".into(), empty.as_bytes().to_vec()).err(), Some(LoadError::NoMessages));
}

#[test]
fn gs_usb_on_the_command_line_takes_the_first_adapter_we_drive() {
    let mut a = cli();
    a.interface = Some("gs_usb".into());
    a.bitrate = Some(250_000);
    let devs = vec![
        UsbDevice { bus: 1, address: 2, ids: Some((0x046d, 0xc52b)) },
        UsbDevice { bus: 1, address: 7, ids: Some((0x1d50, 0x606f)) },
        UsbDevice { bus: 2, address: 3, ids: Some((0x1d50, 0x606f)) },
    ];
    assert_eq!(
        spec_from_args(&a, &devs),
        Some(TransportSpec::GsUsb { bus: 1, address: 7, vid: 0x1d50, pid: 0x606f, bitrate: 250_000 })
    );
    assert_eq!(spec_from_args(&a, &devs[..1].to_vec()), None);
    let config = Config::default();
    assert_eq!(startup_interface(&a, &config, &Vec::new()), None);
}

#[test]
fn the_loopback_is_offered_last_and_once() {
    let net = vec![NetIface { name: "can0".into(), state: "up".into(), bitrate: Some(500_000) }];
    let devs = vec![UsbDevice { bus: 3, address: 1, ids: Some((0x1d50, 0x606f)) }];
    let ports = vec![SerialPort {
        name: "/dev/ttyACM0".into(),
        usb: Some(UsbSerial { vid: 0x16d0, pid: 0x117e, product: Some("CANable".into()) }),
    }];
    let rows = scan(125_000, &net, &devs, &ports);
    assert_eq!(rows.len(), 4);
    assert!(matches!(rows[0].spec, TransportSpec::SocketCan { .. }));
    assert_eq!(rows[1].spec, TransportSpec::GsUsb { bus: 3, address: 1, vid: 0x1d50, pid: 0x606f, bitrate: 125_000 });
    assert_eq!(rows[2].spec, TransportSpec::Slcan { port: "/dev/ttyACM0".into(), bitrate: 125_000 });
    assert_eq!(rows[3].spec, TransportSpec::Virtual);
    assert_eq!(rows[3].label, "virtual");
    assert_eq!(rows.iter().filter(|r| r.spec == TransportSpec::Virtual).count(), 1);
    assert_eq!(scan(125_000, &Vec::new(), &Vec::new(), &Vec::new()).len(), 1);
}

#[test]
fn a_payload_rebuilt_from_its_bytes_is_the_same_payload() {
    let p = Payload::new(&[1, 2, 3]);
    assert_eq!(Payload::new(&p), p);
    let long: Vec<u8> = (0..80).collect();
    let q = Payload::new(&long);
    assert_eq!(q.len(), 64);
    assert_eq!(Payload::new(&q), q);
}

#[test]
fn a_due_send_fits_the_clock_until_its_deadline_would_not() {
    let mut c = Cyclic::new();
    c.set("M".into(), id(0x123), Payload::new(&[1]), 20 * MS, 0);
    assert!(c.due_fits(0));
    assert!(c.due_fits(u64::MAX - 20 * MS));
    assert!(!c.due_fits(u64::MAX - 20 * MS + 1));
}

#[test]
fn the_independent_signals_placeholder_is_not_a_message() {
    let only = "VERSION \"\"\n\nNS_ :\n\nBS_:\n\nBU_: ECU\n\n\
BO_ 3221225472 VECTOR__INDEPENDENT_SIG_MSG: 0 Vector__XXX\n SG_ Loose : 0|8@1+ (1,0) [0|255] \"\" ECU\n";
    assert_eq!(load_text("p.dbc".into(), only.as_bytes().to_vec()).err(), Some(LoadError::NoMessages));
    let with_real = format!("{only}\nBO_ 291 Doors: 8 ECU\n SG_ Mode : 0|8@1+ (1,0) [0|255] \"\" ECU\n");
    let db = load_text("q.dbc".into(), with_real.as_bytes().to_vec()).expect("a real message");
    assert_eq!(db.messages.len(), 1);
    assert_eq!(db.messages[0].name, "Doors");
}

fn entry(path: &str, name: &str, is_dir: bool) -> DirEntry {
    DirEntry { path: path.into(), name: name.into(), is_dir, is_file: !is_dir }
}

#[test]
fn the_dbc_search_keeps_folders_to_visit_and_dbc_files_up_to_the_limit() {
    let mut found = Vec::new();
    let mut next = Vec::new();
    let entries = vec![
        entry("/w/dbc", "dbc", true),
        entry("/w/target", "target", true),
        entry("/w/.git", ".git", true),
        entry("/w/a.DBC", "a.DBC", false),
        entry("/w/notes.txt", "notes.txt", false),
    ];
    search_entries(&mut found, &mut next, &entries);
    assert_eq!(found, vec!["/w/a.DBC".to_string()]);
    assert_eq!(next, vec!["/w/dbc".to_string()]);
    let mut full: Vec<String> = (0..SEARCH_LIMIT).map(|i| format!("/w/{i}.dbc")).collect();
    search_entries(&mut full, &mut next, &vec![entry("/w/more.dbc", "more.dbc", false)]);
    assert_eq!(full.len(), SEARCH_LIMIT);
    assert!(keep_searching(0, 0) && keep_searching(2, SEARCH_LIMIT - 1));
    assert!(!keep_searching(SEARCH_DEPTH, 0) && !keep_searching(0, SEARCH_LIMIT));
}

#[test]
fn the_receive_table_counts_each_identifier_once_in_order() {
    let mut t: Received<&str> = Received::new();
    let ext = canid::make(0x123, true).unwrap();
    t.record(id(0x200), Payload::new(&[1]), "b");
    t.record(id(0x123), Payload::new(&[2]), "a");
    t.record(ext, Payload::new(&[3]), "x");
    t.record(id(0x200), Payload::new(&[4]), "b2");
    assert_eq!(t.len(), 3);
    let first = t.row(0).unwrap();
    assert_eq!((canid::raw(first.id), first.count, first.extra), (0x123, 1, "a"));
    let second = t.row(1).unwrap();
    assert_eq!((canid::raw(second.id), second.count, second.data), (0x200, 2, Payload::new(&[4])));
    assert_eq!(second.extra, "b2");
    // Standard and extended 0x123 stay apart; extended sorts last.
    assert!(canid::is_extended(t.row(2).unwrap().id));
    assert_eq!(t.find(ext), Some(2));
    assert_eq!(t.find(id(0x7FF)), None);
    t.set_extra(0, "renamed");
    assert_eq!(t.row(0).unwrap().extra, "renamed");
    assert_eq!(t.row(0).unwrap().count, 1);
    t.clear();
    assert_eq!(t.len(), 0);
}
