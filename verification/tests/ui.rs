use tuican::app::action::{Action, Pane, WindowSpot};
use tuican::app::{Mode, Pending};
use tuican::ui::input::{map as key_map, KeyCode, KeyEvent};
use tuican::ui::layout::{
    band_height, centred, clip, elide, panel_height, MIN_HEIGHT, MIN_WIDTH, scroll_to_show, split, split_band, stacked_panels, LayoutMap,
    Rect,
};
use tuican::ui::mouse::{hit, map as mouse_map, MouseEvent, MouseKind};
use tuican::canid;
use tuican::rules::Rule;
use tuican::ui::panes::{
    cyclic_row, cyclic_strip, header_text, help_size, hints_text, key_column, keys, message_row, picker_row, rule_look,
    rule_row, rules_title, rx_header, rx_look, rx_row, signal_row, Look,
};

#[test]
fn clipping_a_row_keeps_the_leading_columns_intact() {
    assert_eq!(clip("0x123  Name  42", 20), "0x123  Name  42");
    assert_eq!(clip("0x123  Name  42", 9), "0x123  N…");
    assert_eq!(clip("abc", 0), "");
}

#[test]
fn scrolling_only_moves_when_the_cursor_would_leave() {
    assert_eq!(scroll_to_show(0, 5, 10, 100), 0); // already visible
    assert_eq!(scroll_to_show(0, 10, 10, 100), 1); // one past the bottom
    assert_eq!(scroll_to_show(20, 3, 10, 100), 3); // jumped above
    assert_eq!(scroll_to_show(95, 99, 10, 100), 90); // clamped to the end
}

#[test]
fn eliding_keeps_both_ends() {
    assert_eq!(elide("short", 10), "short");
    assert_eq!(elide("TsacCellboard1Voltage", 12), "TsacCe…ltage");
    assert!(elide("TsacCellboard1Voltage", 12).chars().count() <= 12);
    // The suffix survives, which is what says whether a signal is a
    // voltage or a temperature.
    assert!(elide("TsacCellboard1Voltage", 14).ends_with("oltage"));
    assert!(elide("TsacCellboard1Temperature", 14).ends_with("rature"));
}

#[test]
fn eliding_to_nothing_or_one_leaves_only_ellipses() {
    assert_eq!(elide("abc", 0), "");
    assert_eq!(elide("abc", 1), "…");
    assert_eq!(clip("abc", 1), "…");
}

#[test]
fn scrolling_a_window_of_no_rows_stays_at_the_top() {
    assert_eq!(scroll_to_show(7, 3, 0, 100), 0);
    assert_eq!(scroll_to_show(7, 3, 10, 5), 0);
}

#[test]
fn a_modal_box_is_centred_and_clamped() {
    let area = Rect::new(0, 0, 80, 24);
    assert_eq!(centred(area, 40, 10), Rect::new(20, 7, 40, 10));
    assert_eq!(centred(area, 200, 200), Rect::new(1, 1, 78, 22));
    assert_eq!(centred(Rect::new(0, 0, 1, 1), 5, 5), Rect::new(0, 0, 1, 1));
}

fn layout() -> LayoutMap {
    LayoutMap {
        messages: Rect::new(0, 1, 38, 10),
        signals: Rect::new(38, 1, 42, 10),
        rx: Rect::new(0, 11, 80, 10),
        cyclic: Rect::default(),
        rules: Rect::default(),
    }
}

#[test]
fn a_click_lands_on_the_row_under_the_pointer() {
    // Row 1 of the messages pane is the first item (row 0 is its title).
    assert_eq!(hit(4, 2, &layout()), Some((Pane::Messages, 0)));
    assert_eq!(hit(4, 5, &layout()), Some((Pane::Messages, 3)));
    // The receive pane has a column header, so its items start a row later.
    assert_eq!(hit(4, 13, &layout()), Some((Pane::Rx, 0)));
}

#[test]
fn clicking_a_title_bar_does_nothing() {
    assert_eq!(hit(4, 1, &layout()), None);
    assert_eq!(hit(4, 12, &layout()), None);
}

#[test]
fn modals_swallow_the_mouse_entirely() {
    let click = MouseEvent { kind: MouseKind::LeftDown, column: 4, row: 2 };
    assert_eq!(mouse_map(click, &layout(), &Mode::Help), Action::Nothing);
}

#[test]
fn the_wheel_scrolls_the_pane_under_the_pointer() {
    let wheel = MouseEvent { kind: MouseKind::ScrollDown, column: 50, row: 3 };
    assert_eq!(mouse_map(wheel, &layout(), &Mode::Normal), Action::ScrollIn(Some(Pane::Signals), 3));
    let up = MouseEvent { kind: MouseKind::ScrollUp, column: 79, row: 30 };
    assert_eq!(mouse_map(up, &layout(), &Mode::Normal), Action::ScrollIn(None, -3));
    let click = MouseEvent { kind: MouseKind::LeftDown, column: 4, row: 5 };
    assert_eq!(mouse_map(click, &layout(), &Mode::Normal), Action::FocusAndSelect(Pane::Messages, 3));
}

fn key(c: char) -> KeyEvent {
    KeyEvent { code: KeyCode::Char(c), ctrl: false }
}

#[test]
fn digits_are_counts_before_they_are_commands() {
    assert_eq!(key_map(key('5'), &Mode::Normal, Pending::Nothing), Action::CountDigit(5));
    assert_eq!(key_map(key('j'), &Mode::Normal, Pending::Nothing), Action::Move(1));
    assert_eq!(key_map(key('g'), &Mode::Normal, Pending::Nothing), Action::BeginG);
    assert_eq!(key_map(key('g'), &Mode::Normal, Pending::G), Action::Home);
    assert_eq!(key_map(key('x'), &Mode::Normal, Pending::G), Action::Nothing);
    assert_eq!(key_map(key('M'), &Mode::Normal, Pending::Nothing), Action::Window(WindowSpot::Middle));
    let ctrl_d = KeyEvent { code: KeyCode::Char('d'), ctrl: true };
    assert_eq!(key_map(ctrl_d, &Mode::Normal, Pending::Nothing), Action::HalfPage(1));
    assert_eq!(key_map(KeyEvent { code: KeyCode::F(5), ctrl: false }, &Mode::Normal, Pending::Nothing), Action::ToggleCyclicPanel);
}

#[test]
fn a_prompt_types_what_would_otherwise_quit() {
    let prompt = Mode::Prompt(tuican::app::Prompt {
        kind: tuican::app::PromptKind::Filter,
        label: "filter:".into(),
        buffer: String::new(),
        default: None,
    });
    assert_eq!(key_map(key('q'), &prompt, Pending::Nothing), Action::PromptChar('q'));
    let ctrl_c = KeyEvent { code: KeyCode::Char('c'), ctrl: true };
    assert_eq!(key_map(ctrl_c, &prompt, Pending::Nothing), Action::Cancel);
    assert_eq!(key_map(KeyEvent { code: KeyCode::Enter, ctrl: false }, &prompt, Pending::Nothing), Action::PromptSubmit);
    assert_eq!(key_map(key('q'), &Mode::Help, Pending::Nothing), Action::Cancel);
}

#[test]
fn the_help_box_fits_its_table() {
    assert_eq!(keys().len(), 20);
    assert_eq!(key_column(), 22);
    assert_eq!(help_size(), (68, 22));
}

#[test]
fn receive_rows_keep_their_columns() {
    assert_eq!(rx_header(false, false), "          id name                        count  decoded");
    let id = canid::make(0x123, false).unwrap();
    assert_eq!(
        rx_row(id, "Motor", 7, None, None, "rpm=1"),
        "       0x123 Motor                           7  rpm=1"
    );
    let row = rx_row(id, "M", 1, Some("10.0"), Some("01 02"), "");
    assert_eq!(row, "       0x123 M                               1    10.0  01 02                    ");
    assert_eq!(rx_look(false, true, true), Look::Dim);
    assert_eq!(rx_look(false, false, false), Look::Accent);
    assert_eq!(rx_look(true, true, false), Look::Selected);
}

#[test]
fn rules_and_cyclic_rows_say_what_they_are() {
    let mut r: Rule<(), ()> = Rule {
        name: "heater".into(),
        enabled: true,
        all: vec![],
        any: vec![],
        then: vec![],
        fired: 3,
        last_fired: None,
        warning: None,
        holding: true,
    };
    assert_eq!(rule_row(&r, "when x"), "  [x] heater                        held      3  when x");
    assert_eq!(rule_look(&r, false), Look::Accent);
    assert_eq!(rules_title("a.toml", &vec![r.clone()]), "rules  a.toml");
    r.warning = Some("broken".into());
    assert_eq!(rule_row(&r, "when x"), "  [x] heater                         bad      3  broken");
    assert_eq!(rules_title("a.toml", &vec![r.clone()]), "rules  a.toml  (1 needs attention)");
    assert_eq!(rules_title("a.toml", &vec![r.clone(), r.clone()]), "rules  a.toml  (2 need attention)");
    assert_eq!(cyclic_strip(&vec![]), " cyclic: none");
    assert_eq!(cyclic_strip(&vec![("A".into(), 2), ("B".into(), 0)]), " cyclic: A(2), B(0)");
    let id = canid::make(0x10, false).unwrap();
    assert_eq!(
        cyclic_row("Heart", id, "100", 5, "01"),
        "  Heart                             0x010     100ms        5  01"
    );
}

#[test]
fn the_screen_is_cut_into_its_rows() {
    let f = split(Rect::new(0, 0, 120, 40), 1);
    assert_eq!(f.header, Rect::new(0, 0, 120, 1));
    assert_eq!(f.hints, Rect::new(0, 39, 120, 1));
    assert_eq!(f.status, Rect::new(0, 38, 120, 1));
    assert_eq!(f.band, Rect::new(0, 37, 120, 1));
    // Wide: a fixed 38-column message list beside the signals.
    assert_eq!(f.messages.x, 0);
    assert_eq!(f.messages.width, 38);
    assert_eq!(f.signals.x, 38);
    assert_eq!(f.signals.width, 82);
    assert_eq!(f.messages.y, 1);
    assert_eq!(f.rx.y, f.messages.y + f.messages.height);
    assert_eq!(f.rx.y + f.rx.height, 37);
    // Narrow: the two panes stack.
    let n = split(Rect::new(0, 0, 70, 40), 4);
    assert_eq!(n.messages.width, 70);
    assert_eq!(n.signals.y, n.messages.y + n.messages.height);
    assert_eq!(n.band.height, 4);
}

#[test]
fn panels_take_their_rows_from_the_band() {
    assert_eq!(panel_height(0), 3);
    assert_eq!(panel_height(3), 5);
    assert_eq!(panel_height(40), 8);
    assert!(stacked_panels(true, true, 119));
    assert!(!stacked_panels(true, true, 120));
    assert!(!stacked_panels(true, false, 80));
    assert_eq!(band_height(false, 0, false, 0, 100), 1);
    assert_eq!(band_height(true, 2, false, 0, 100), 4);
    assert_eq!(band_height(true, 10, true, 10, 100), 12); // stacked, capped
    assert_eq!(band_height(true, 1, true, 10, 130), 8); // side by side: the taller
    let band = Rect::new(0, 30, 100, 8);
    assert_eq!(split_band(band, true, true, true, 3), (Rect::new(0, 30, 100, 3), Rect::new(0, 33, 100, 5)));
    assert_eq!(split_band(band, true, true, false, 3), (Rect::new(0, 30, 50, 8), Rect::new(50, 30, 50, 8)));
    assert_eq!(split_band(band, false, true, false, 3), (Rect::default(), band));
}

#[test]
fn the_header_drops_fields_that_do_not_fit() {
    let fields = vec!["primary.dbc · 3 msgs".to_string(), "tx 1 rx 2".to_string()];
    let link = " ○ not connected ";
    assert_eq!(header_text(link, &fields, 30), format!("{link:<30}"));
    let wide = header_text(link, &fields, 50);
    assert_eq!(wide, format!("{:<50}", format!("{link}│ primary.dbc · 3 msgs ")));
    let all = header_text(link, &fields, 80);
    assert!(all.contains("│ tx 1 rx 2 "));
    assert_eq!(all.chars().count(), 80);
}

#[test]
fn message_and_signal_rows_fit_their_panes() {
    let id = canid::make(0x123, false).unwrap();
    assert_eq!(message_row(true, id, "BrakesEBS", 30), "~0x123 BrakesEBS");
    assert_eq!(message_row(false, id, "BrakesEBS", 10), " 0x123 Br…S");
    let row = signal_row("speed", "12 km/h", false, 40);
    assert_eq!(row.chars().count(), 40);
    assert!(row.starts_with("speed                12 km/h   (not in"));
    assert!(row.ends_with('…'));
    assert_eq!(signal_row("speed", "12 km/h", true, 40), "speed                12 km/h");
    assert_eq!(picker_row("candleLight", "usb 001:004", 40), " candleLight           usb 001:004");
}

#[test]
fn the_hint_bar_shortens_on_narrow_terminals() {
    let full = hints_text(true, 200);
    assert!(full.starts_with(" tab pane · / filter"));
    assert!(full.contains("F2 mouse:on · ? help"));
    assert_eq!(full.chars().count(), 200);
    let short = hints_text(false, 100);
    assert!(short.starts_with(" tab · / · ⏎"));
    assert!(short.contains("[mouse:off]"));
    assert_eq!(short.chars().count(), 100);
}

#[test]
fn a_tiny_terminal_still_produces_valid_rects() {
    let f = split(Rect::new(0, 0, MIN_WIDTH, MIN_HEIGHT), 1);
    assert!(f.rx.height >= 1);
    assert!(f.messages.width > 0 && f.signals.width > 0);
}
