use tuican::app::dispatch::{closes_help, intent, Intent};
use tuican::app::action::{Action, Pane, WindowSpot};
use tuican::app::detail::{rule_state, Detail, DetailRow};
use tuican::app::nav::{page_size, Lens, Nav, Rows};
use tuican::app::picker::{bitrate_picker, dbc_picker, interface_picker, picker_choice, picker_move, picker_step, Choice, PickerStep};
use tuican::app::send::{toggle_cyclic, Toggle};
use tuican::transport::discover::Candidate;
use tuican::app::prompt::{
    filter_event, parse_raw_send, prompt_step, submitted_text, trim_text, FilterEvent, FilterState, PromptStep, RawSendError,
};
use tuican::ui::panes::rx_columns;
use tuican::app::events::{link_change, ErrorNote, LinkEvent};
use tuican::app::{Link, Pending, Picker, PickerKind, PickerRow, Prompt, PromptKind, Scroll};
use tuican::transport::spec::TransportSpec;
use tuican::canid;
use tuican::rules::Rule;
use tuican::ui::layout::{LayoutMap, Rect};

fn lens(n: usize) -> Lens {
    Lens { messages: n, signals: 3, rx: n, cyclic: 0, rules: 0 }
}

fn layout() -> LayoutMap {
    LayoutMap {
        messages: Rect::new(0, 1, 38, 12),
        signals: Rect::new(38, 1, 42, 12),
        rx: Rect::new(0, 13, 80, 10),
        cyclic: Rect::default(),
        rules: Rect::default(),
    }
}

#[test]
fn a_count_repeats_a_motion_and_is_then_spent() {
    let mut n = Nav::new();
    let l = lens(100);
    assert!(n.update(&Action::CountDigit(1), &l, &layout()));
    assert!(n.update(&Action::CountDigit(2), &l, &layout()));
    assert_eq!(n.count, Some(12));
    n.update(&Action::Move(1), &l, &layout());
    assert_eq!(n.msg_index, 12);
    assert_eq!(n.count, None);
    n.update(&Action::Move(1), &l, &layout());
    assert_eq!(n.msg_index, 13);
}

#[test]
fn a_leading_zero_is_no_count_and_counts_are_capped() {
    let mut n = Nav::new();
    let l = lens(10);
    n.update(&Action::CountDigit(0), &l, &layout());
    assert_eq!(n.count, None);
    for _ in 0..8 {
        n.update(&Action::CountDigit(9), &l, &layout());
    }
    assert_eq!(n.count, Some(100_000));
}

#[test]
fn motions_stop_at_either_end() {
    let mut n = Nav::new();
    let l = lens(5);
    n.update(&Action::Move(-3), &l, &layout());
    assert_eq!(n.msg_index, 0);
    n.update(&Action::End, &l, &layout());
    assert_eq!(n.msg_index, 4);
    n.update(&Action::Move(10), &l, &layout());
    assert_eq!(n.msg_index, 4);
    n.update(&Action::Home, &l, &layout());
    assert_eq!(n.msg_index, 0);
}

#[test]
fn a_count_before_g_goes_to_that_row() {
    let mut n = Nav::new();
    let l = lens(100);
    n.update(&Action::CountDigit(4), &l, &layout());
    n.update(&Action::CountDigit(2), &l, &layout());
    n.update(&Action::End, &l, &layout());
    assert_eq!(n.msg_index, 41);
}

#[test]
fn gg_is_a_pending_sequence() {
    let mut n = Nav::new();
    let l = lens(10);
    n.update(&Action::BeginG, &l, &layout());
    assert_eq!(n.pending, Pending::G);
    n.update(&Action::Move(1), &l, &layout());
    assert_eq!(n.pending, Pending::Nothing);
}

#[test]
fn paging_moves_by_what_the_pane_shows() {
    // 12 rows tall, one title row and a border: ten rows of items.
    assert_eq!(page_size(&layout(), Pane::Messages), 10);
    assert_eq!(page_size(&layout(), Pane::Rx), 7);
    assert_eq!(page_size(&LayoutMap::default(), Pane::Rx), 1);
    let mut n = Nav::new();
    let l = lens(100);
    n.update(&Action::Page(1), &l, &layout());
    assert_eq!(n.msg_index, 10);
    n.update(&Action::HalfPage(1), &l, &layout());
    assert_eq!(n.msg_index, 15);
}

#[test]
fn the_window_keys_land_on_the_screen() {
    let mut n = Nav::new();
    let l = lens(100);
    n.msg_scroll = Scroll { offset: 20, follow: true };
    n.update(&Action::Window(WindowSpot::Bottom), &l, &layout());
    assert_eq!(n.msg_index, 29);
    n.update(&Action::Window(WindowSpot::Middle), &l, &layout());
    assert_eq!(n.msg_index, 25);
    n.update(&Action::Window(WindowSpot::Top), &l, &layout());
    assert_eq!(n.msg_index, 20);
}

#[test]
fn tab_skips_closed_panels_and_closing_a_panel_moves_focus_off_it() {
    let mut n = Nav::new();
    let l = lens(5);
    n.update(&Action::PrevPane, &l, &layout());
    assert_eq!(n.pane, Pane::Rx);
    n.update(&Action::ToggleRulesPanel, &l, &layout());
    n.update(&Action::NextPane, &l, &layout());
    assert_eq!(n.pane, Pane::Rules);
    n.update(&Action::ToggleRulesPanel, &l, &layout());
    assert_eq!(n.pane, Pane::Messages);
    assert_eq!(n.panes(), vec![Pane::Messages, Pane::Signals, Pane::Rx]);
}

#[test]
fn a_click_selects_and_the_wheel_only_scrolls() {
    let mut n = Nav::new();
    let l = lens(100);
    n.update(&Action::FocusAndSelect(Pane::Rx, 3), &l, &layout());
    assert_eq!((n.pane, n.rx_index), (Pane::Rx, 3));
    n.update(&Action::ScrollIn(Some(Pane::Messages), 3), &l, &layout());
    assert_eq!(n.pane, Pane::Rx);
    assert_eq!(n.msg_index, 0);
    assert_eq!(n.msg_scroll, Scroll { offset: 3, follow: false });
    n.update(&Action::ScrollIn(Some(Pane::Messages), -10), &l, &layout());
    assert_eq!(n.msg_scroll.offset, 0);
    // A click past the last row selects nothing.
    n.update(&Action::FocusAndSelect(Pane::Signals, 7), &l, &layout());
    assert_eq!((n.pane, n.sig_index), (Pane::Signals, 0));
}

#[test]
fn choosing_another_message_resets_the_signal_cursor() {
    let mut n = Nav::new();
    let l = lens(10);
    n.pane = Pane::Signals;
    n.update(&Action::Move(2), &l, &layout());
    assert_eq!(n.sig_index, 2);
    n.pane = Pane::Messages;
    n.update(&Action::Move(1), &l, &layout());
    assert_eq!(n.sig_index, 0);
    assert_eq!(n.sig_scroll, Scroll { offset: 0, follow: true });
}

#[test]
fn other_actions_are_left_to_the_caller() {
    let mut n = Nav::new();
    assert!(!n.update(&Action::SendOnce, &lens(3), &layout()));
}

#[test]
fn scroll_offsets_follow_the_cursor_or_stay_where_the_wheel_left_them() {
    let mut n = Nav::new();
    n.msg_index = 30;
    n.msg_scroll = Scroll { offset: 0, follow: true };
    n.rx_scroll = Scroll { offset: 90, follow: false };
    let rows = Rows { messages: 10, signals: 10, rx: 10, cyclic: 0, rules: 0 };
    n.reconcile(&rows, &Lens { messages: 100, signals: 0, rx: 50, cyclic: 0, rules: 0 });
    assert_eq!(n.msg_scroll.offset, 21);
    assert_eq!(n.rx_scroll.offset, 40);
}

#[test]
fn scroll_to_moves_the_view_and_detaches_it() {
    let mut s = Scroll { offset: 1, follow: true };
    s.to(9);
    assert_eq!(s, Scroll { offset: 9, follow: false });
}

#[test]
fn the_overlay_scrolls_and_any_other_key_closes_it() {
    let mut d = Detail::new("x".into(), vec![DetailRow::Text("y".into()), DetailRow::Blank]);
    assert_eq!(d.scroll, 0);
    assert!(d.on_action(&Action::Move(-1)));
    assert_eq!(d.scroll, 0);
    assert!(d.on_action(&Action::Page(2)));
    assert_eq!(d.scroll, 20);
    assert!(d.on_action(&Action::End));
    assert_eq!(d.scroll, usize::MAX);
    assert!(d.on_action(&Action::Move(1)));
    assert_eq!(d.scroll, usize::MAX);
    assert!(!d.on_action(&Action::Cancel));
}

#[test]
fn pickers_wrap_round() {
    assert_eq!(picker_move(0, -1, 4), 3);
    assert_eq!(picker_move(3, 1, 4), 0);
    assert_eq!(picker_move(1, 6, 4), 3);
    assert_eq!(picker_move(0, -5, 4), 3);
    assert_eq!(picker_move(0, 1, 0), 0);
}

#[test]
fn a_raw_frame_is_read_from_hex_words() {
    let (id, p) = parse_raw_send("4E5 11 22 33").unwrap().unwrap();
    assert_eq!(canid::raw(id), 0x4E5);
    assert!(!canid::is_extended(id));
    assert_eq!(&*p, &[0x11, 0x22, 0x33]);
    let (id, p) = parse_raw_send("0x18FF1234, aa,BB").unwrap().unwrap();
    assert!(canid::is_extended(id));
    assert_eq!(canid::raw(id), 0x18FF_1234);
    assert_eq!(&*p, &[0xAA, 0xBB]);
    assert!(parse_raw_send("").is_none());
    assert!(parse_raw_send("  ,, ").is_none());
}

#[test]
fn a_bad_raw_frame_says_which_word_is_wrong() {
    assert!(matches!(parse_raw_send("xyz 11"), Some(Err(RawSendError::BadId(w))) if w == "xyz"));
    assert!(matches!(parse_raw_send("123 11 1ff"), Some(Err(RawSendError::BadByte(w))) if w == "1ff"));
    assert!(matches!(parse_raw_send("123 1 2 3 4 5 6 7 8 9"), Some(Err(RawSendError::TooLong))));
    assert!(matches!(parse_raw_send("123456789 1"), Some(Err(RawSendError::BadId(_)))));
}

#[test]
fn an_empty_prompt_takes_its_default() {
    assert_eq!(submitted_text("  250 ", &Some("100".into())), "250");
    assert_eq!(submitted_text("   ", &Some("100".into())), "100");
    assert_eq!(submitted_text("", &None), "");
    assert_eq!(trim_text("\t x y \n"), "x y");
}

fn rule(enabled: bool, holding: bool, warning: Option<&str>) -> Rule<(), ()> {
    Rule {
        name: "r".into(),
        enabled,
        all: vec![],
        any: vec![],
        then: vec![],
        fired: 0,
        last_fired: None,
        warning: warning.map(|w| w.to_string()),
        holding,
    }
}

#[test]
fn a_rule_is_described_by_its_state() {
    assert_eq!(rule_state(&rule(true, false, Some("bad"))), "needs attention");
    assert_eq!(rule_state(&rule(false, false, None)), "disabled");
    assert_eq!(rule_state(&rule(true, true, None)), "condition currently true, waiting for it to fall");
    assert_eq!(rule_state(&rule(true, false, None)), "armed");
}

#[test]
fn link_news_updates_the_header_and_the_periodic_sends() {
    let c = link_change(LinkEvent::Connected { who: "virtual loopback".into(), resumed: false });
    assert_eq!(c.link, Link::Up);
    assert_eq!(c.status, "connected to virtual loopback");
    assert!(c.clear_cyclic);
    assert!(matches!(c.error, ErrorNote::Clear));
    let c = link_change(LinkEvent::Connected { who: "x".into(), resumed: true });
    assert_eq!(c.status, "link restored: x");
    assert!(!c.clear_cyclic);
    let c = link_change(LinkEvent::Disconnected { retrying: true });
    assert_eq!((c.link, c.label.as_str()), (Link::Retrying, "link lost, reconnecting"));
    assert!(!c.clear_cyclic);
    let c = link_change(LinkEvent::Disconnected { retrying: false });
    assert_eq!((c.link, c.status.as_str()), (Link::Down, "disconnected"));
    assert!(c.clear_cyclic);
    let c = link_change(LinkEvent::Reconnecting { attempt: 3 });
    assert_eq!(c.status, "reconnecting… (attempt 3)");
    let c = link_change(LinkEvent::ConnectFailed("no device".into()));
    assert!(matches!(c.error, ErrorNote::Show(ref e) if e == "no device"));
    assert_eq!(c.label, "not connected");
}

fn prompt(kind: PromptKind, default: Option<&str>) -> Prompt {
    Prompt { kind, label: "x".into(), buffer: String::new(), default: default.map(String::from) }
}

#[test]
fn typing_over_a_default_replaces_it() {
    let mut p = prompt(PromptKind::Period, Some("100"));
    for c in "250".chars() {
        assert!(matches!(prompt_step(&mut p, &Action::PromptChar(c)), PromptStep::Edited));
    }
    assert_eq!(p.buffer, "250");
    match prompt_step(&mut p, &Action::PromptSubmit) {
        PromptStep::Submitted { kind, text } => {
            assert_eq!(kind, PromptKind::Period);
            assert_eq!(text, "250"); // not 100250
        }
        other => panic!("{other:?}"),
    }
    let mut empty = prompt(PromptKind::Period, Some("100"));
    match prompt_step(&mut empty, &Action::PromptSubmit) {
        PromptStep::Submitted { text, .. } => assert_eq!(text, "100"),
        other => panic!("{other:?}"),
    }
    assert!(matches!(prompt_step(&mut p, &Action::PromptBackspace), PromptStep::Edited));
    assert_eq!(p.buffer, "25");
    let mut f = prompt(PromptKind::Filter, None);
    assert!(matches!(prompt_step(&mut f, &Action::Cancel), PromptStep::Cancelled { was_filter: true }));
    assert!(matches!(prompt_step(&mut f, &Action::Home), PromptStep::Nothing));
}

#[test]
fn escape_puts_the_old_filter_back() {
    let mut f = FilterState::new();
    f.submit("brake".to_string());
    f.begin();
    assert_eq!(f.filter, "");
    f.live("mot");
    f.live("motor");
    f.cancel();
    assert_eq!(f.filter, "brake");
}

fn picker(kind: PickerKind, rows: usize) -> Picker {
    Picker {
        title: "t".into(),
        rows: (0..rows).map(|i| PickerRow { label: i.to_string(), detail: String::new() }).collect(),
        index: 0,
        kind,
        startup: true,
        then_interface: false,
    }
}

#[test]
fn pickers_wrap_choose_and_close() {
    let mut p = picker(PickerKind::Bitrate(TransportSpec::Virtual), 4);
    assert_eq!(picker_step(&mut p, &Action::PickerMove(-1)), PickerStep::Stay);
    assert_eq!(p.index, 3);
    assert_eq!(picker_step(&mut p, &Action::Move(1)), PickerStep::Stay);
    assert_eq!(p.index, 0);
    assert_eq!(picker_step(&mut p, &Action::Cancel), PickerStep::Cancelled { startup: true });
    assert_eq!(picker_step(&mut p, &Action::PromptSubmit), PickerStep::Accept);
    assert_eq!(picker_step(&mut p, &Action::Quit), PickerStep::Quit);
}

#[test]
fn choosing_a_row_does_what_the_row_says() {
    let usb = TransportSpec::GsUsb { bus: 1, address: 4, vid: 0x1D50, pid: 0x606F, bitrate: 500_000 };
    let kinds = vec![TransportSpec::Virtual, usb.clone()];
    assert!(matches!(picker_choice(PickerKind::Interface(kinds.clone()), 0, false), Choice::Connect(TransportSpec::Virtual)));
    assert!(matches!(picker_choice(PickerKind::Interface(kinds.clone()), 1, false), Choice::AskBitrate(s) if s == usb));
    assert!(matches!(picker_choice(PickerKind::Interface(kinds), 2, false), Choice::Nothing));
    match picker_choice(PickerKind::Bitrate(usb.clone()), 2, false) {
        Choice::ConnectAt(rate, s) => {
            assert_eq!(rate, 250_000);
            assert_eq!(s, usb.clone().with_bitrate(250_000));
        }
        other => panic!("{other:?}"),
    }
    assert!(matches!(picker_choice(PickerKind::Bitrate(usb), 9, false), Choice::ConnectAt(500_000, _)));
    match picker_choice(PickerKind::Dbc(vec!["a.dbc".into()]), 0, true) {
        Choice::Load { path, then_interface } => {
            assert_eq!(path.as_deref(), Some("a.dbc"));
            assert!(then_interface);
        }
        other => panic!("{other:?}"),
    }
}

#[test]
fn any_ordinary_key_closes_the_overlay() {
    let mut d = Detail::new("x".into(), vec![DetailRow::Text("y".into())]);
    assert!(!d.on_action(&Action::Cancel));
}

fn candidate(spec: TransportSpec, label: &str) -> Candidate {
    Candidate { spec, label: label.to_string(), detail: format!("{label} detail") }
}

#[test]
fn the_interface_picker_opens_on_the_device_used_last_time() {
    let found = vec![
        candidate(TransportSpec::Virtual, "virtual"),
        candidate(TransportSpec::GsUsb { bus: 1, address: 4, vid: 0x1d50, pid: 0x606f, bitrate: 500_000 }, "candle"),
        candidate(TransportSpec::SocketCan { iface: "can0".into() }, "can0"),
    ];
    // The bitrate is no part of which device it is.
    let last = Some(TransportSpec::GsUsb { bus: 1, address: 4, vid: 0, pid: 0, bitrate: 1_000_000 });
    let p = interface_picker(&found, &last, true);
    assert_eq!(p.title, "interface");
    assert_eq!(p.index, 1);
    assert!(p.startup && !p.then_interface);
    assert_eq!(p.rows.len(), 3);
    assert_eq!(p.rows[2].label, "can0");
    assert_eq!(p.rows[2].detail, "can0 detail");
    match &p.kind {
        PickerKind::Interface(specs) => assert_eq!(specs[2], TransportSpec::SocketCan { iface: "can0".into() }),
        _ => panic!("not an interface picker"),
    }
    // Gone since: the top row.
    let gone = Some(TransportSpec::Slcan { port: "/dev/ttyACM0".into(), bitrate: 500_000 });
    assert_eq!(interface_picker(&found, &gone, false).index, 0);
    assert_eq!(interface_picker(&found, &None, false).index, 0);
}

#[test]
fn the_bitrate_picker_opens_on_the_rate_in_use() {
    let spec = TransportSpec::Slcan { port: "/dev/ttyACM0".into(), bitrate: 0 };
    let p = bitrate_picker(spec.clone(), 250_000, false);
    assert_eq!(p.title, "bitrate");
    assert_eq!(p.index, 2);
    let labels: Vec<&str> = p.rows.iter().map(|r| r.label.as_str()).collect();
    assert_eq!(labels, vec!["1 Mbit/s", "500 kbit/s", "250 kbit/s", "125 kbit/s"]);
    assert!(p.rows.iter().all(|r| r.detail.is_empty()));
    assert!(matches!(&p.kind, PickerKind::Bitrate(s) if *s == spec));
    // A rate the list does not offer lands on the top row.
    assert_eq!(bitrate_picker(spec, 83_333, false).index, 0);
}

#[test]
fn the_dbc_picker_names_files_by_folder_under_the_start_directory() {
    let found = vec![
        "/work/bench/dbc/body/doors.dbc".to_string(),
        "/work/bench/top.dbc".to_string(),
        "/elsewhere/x.dbc".to_string(),
    ];
    let last = Some("/work/bench/top.dbc".to_string());
    let p = dbc_picker(found.clone(), "/work/bench", &last, true, true).expect("files were found");
    assert_eq!(p.title, "dbc file");
    assert_eq!(p.index, 1);
    assert!(p.startup && p.then_interface);
    assert_eq!(p.rows[0].label, "doors.dbc");
    assert_eq!(p.rows[0].detail, "dbc/body");
    assert_eq!(p.rows[1].label, "top.dbc");
    assert_eq!(p.rows[1].detail, ".");
    // Outside the start directory, the folder stays absolute.
    assert_eq!(p.rows[2].detail, "/elsewhere");
    assert!(matches!(&p.kind, PickerKind::Dbc(paths) if *paths == found));
    // Nothing found: no picker.
    assert!(dbc_picker(Vec::new(), "/work/bench", &last, true, false).is_none());
    assert_eq!(dbc_picker(found, "/work/bench", &None, false, false).unwrap().index, 0);
}

#[test]
fn toggling_a_periodic_send_stops_refuses_or_asks_for_the_period() {
    assert!(matches!(toggle_cyclic("Doors", true, Link::Down, None), Toggle::Stop));
    assert!(matches!(toggle_cyclic("Doors", false, Link::Down, Some(20)), Toggle::NotConnected));
    match toggle_cyclic("Doors", false, Link::Retrying, Some(20)) {
        Toggle::AskPeriod(p) => {
            assert_eq!(p.kind, PromptKind::Period);
            assert_eq!(p.label, "period ms for Doors:");
            assert_eq!(p.buffer, "");
            assert_eq!(p.default.as_deref(), Some("20"));
        }
        _ => panic!("should ask for the period"),
    }
    match toggle_cyclic("Doors", false, Link::Up, None) {
        Toggle::AskPeriod(p) => assert_eq!(p.default.as_deref(), Some("100")),
        _ => panic!("should ask for the period"),
    }
}

#[test]
fn white_space_is_what_std_calls_white_space() {
    for c in (0u32..=0xFFFF).filter_map(char::from_u32) {
        let text = format!("{c}x{c}");
        let want = if c.is_whitespace() { "x".to_string() } else { text.clone() };
        assert_eq!(trim_text(&text), want, "U+{:04X}", c as u32);
    }
}

#[test]
fn enter_acts_on_what_the_focused_pane_lists() {
    assert_eq!(intent(&Action::BeginEditSignal, Pane::Rx), Intent::Inspect);
    assert_eq!(intent(&Action::BeginEditSignal, Pane::Rules), Intent::ToggleRule);
    assert_eq!(intent(&Action::BeginEditSignal, Pane::Cyclic), Intent::JumpToCyclic);
    assert_eq!(intent(&Action::BeginEditSignal, Pane::Signals), Intent::EditSignal);
    assert_eq!(intent(&Action::ToggleHelp, Pane::Messages), Intent::ShowHelp);
    assert_eq!(intent(&Action::Move(1), Pane::Messages), Intent::Nothing);
    assert!(closes_help(&Action::Quit));
    assert!(!closes_help(&Action::Nothing));
}

#[test]
fn escape_in_the_filter_prompt_puts_back_the_filter_and_rewinds_the_list() {
    let mut f = FilterState::new();
    let mut n = Nav::new();
    filter_event(&mut f, &mut n, FilterEvent::Submitted("door".into()));
    n.msg_index = 7;
    filter_event(&mut f, &mut n, FilterEvent::Begin);
    assert_eq!(f.filter, "");
    assert_eq!(n.msg_index, 0);
    assert_eq!(n.msg_scroll, Scroll { offset: 0, follow: true });
    filter_event(&mut f, &mut n, FilterEvent::Typed("eng".into()));
    assert_eq!(f.filter, "eng");
    n.msg_index = 3;
    filter_event(&mut f, &mut n, FilterEvent::Cancelled);
    assert_eq!(f.filter, "door");
    assert_eq!(n.msg_index, 0);
}

#[test]
fn the_receive_pane_sheds_period_then_payload_as_it_narrows() {
    assert_eq!(rx_columns(120), (true, true));
    assert_eq!(rx_columns(100), (true, true));
    assert_eq!(rx_columns(99), (false, true));
    assert_eq!(rx_columns(80), (false, true));
    assert_eq!(rx_columns(79), (false, false));
}
