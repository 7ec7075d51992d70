//! Where things go. Every frame is laid out from the *current* terminal size,
//! so there is no resize handler anywhere in the program — a `Resize` event is
//! just a redraw trigger.
//!
//! Also the text fitting every pane relies on: scrolling a cursor into view,
//! eliding a name in the middle, clipping a row at the right edge.

use ratatui::layout as rl;
use vstd::prelude::*;

use crate::app::action::Pane;
use crate::text::{chars_of, string_of};

verus! {

/// A rectangle of terminal cells.
#[derive(Clone, Copy, Debug, PartialEq, Eq, Structural)]
pub struct Rect {
    pub x: u16,
    pub y: u16,
    pub width: u16,
    pub height: u16,
}

/// `a + b`, capped at `u16::MAX`.
pub open spec fn sat_add16(a: u16, b: u16) -> int {
    if a + b > u16::MAX {
        u16::MAX as int
    } else {
        a + b
    }
}

/// Whether the cell at column `col`, row `row` lies inside `r`; the far edges
/// stop at the largest coordinate.
pub open spec fn spec_contains(r: Rect, col: u16, row: u16) -> bool {
    r.x <= col < sat_add16(r.x, r.width) && r.y <= row < sat_add16(r.y, r.height)
}

impl Rect {
    pub fn new(x: u16, y: u16, width: u16, height: u16) -> (r: Rect)
        ensures
            r == (Rect { x, y, width, height }),
    {
        Rect { x, y, width, height }
    }

    /// Whether the cell at column `col`, row `row` lies inside.
    pub fn contains(&self, col: u16, row: u16) -> (r: bool)
        ensures
            r == spec_contains(*self, col, row),
    {
        col >= self.x && col < self.x.saturating_add(self.width) && row >= self.y && row
            < self.y.saturating_add(self.height)
    }
}

impl Default for Rect {
    fn default() -> (r: Self)
        ensures
            r == (Rect { x: 0, y: 0, width: 0, height: 0 }),
    {
        Rect { x: 0, y: 0, width: 0, height: 0 }
    }
}

/// The rects of the last frame, kept solely so the mouse can hit-test them.
#[derive(Clone, Copy, Debug)]
pub struct LayoutMap {
    pub messages: Rect,
    pub signals: Rect,
    pub rx: Rect,
    pub cyclic: Rect,
    pub rules: Rect,
}

impl Default for LayoutMap {
    fn default() -> (m: Self)
        ensures
            m.messages == Rect::spec_default() && m.signals == Rect::spec_default() && m.rx
                == Rect::spec_default() && m.cyclic == Rect::spec_default() && m.rules
                == Rect::spec_default(),
    {
        LayoutMap {
            messages: Rect::default(),
            signals: Rect::default(),
            rx: Rect::default(),
            cyclic: Rect::default(),
            rules: Rect::default(),
        }
    }
}

impl Rect {
    /// The empty rectangle at the origin.
    pub open spec fn spec_default() -> Rect {
        Rect { x: 0, y: 0, width: 0, height: 0 }
    }
}

/// Where a pane was drawn.
pub open spec fn spec_rect_of(m: LayoutMap, pane: Pane) -> Rect {
    match pane {
        Pane::Messages => m.messages,
        Pane::Signals => m.signals,
        Pane::Rx => m.rx,
        Pane::Cyclic => m.cyclic,
        Pane::Rules => m.rules,
    }
}

impl LayoutMap {
    pub fn rect_of(&self, pane: Pane) -> (r: Rect)
        ensures
            r == spec_rect_of(*self, pane),
    {
        match pane {
            Pane::Messages => self.messages,
            Pane::Signals => self.signals,
            Pane::Rx => self.rx,
            Pane::Cyclic => self.cyclic,
            Pane::Rules => self.rules,
        }
    }
}

/// Below this, panes cannot hold a useful number of rows and we say so rather
/// than rendering unreadable slivers.
pub const MIN_WIDTH: u16 = 60;

pub const MIN_HEIGHT: u16 = 12;

/// How much room one piece of a split asks for, as ratatui's layout solver
/// takes it: an exact number of cells, a share of the whole in percent, or at
/// least a number of cells, absorbing the slack.
#[derive(Clone, Copy, Debug, PartialEq, Eq, Structural)]
pub enum Constraint {
    Length(u16),
    Percentage(u16),
    Min(u16),
}

/// Whether each of `rects` spans `area` across the direction of the cut:
/// the full width of a vertical cut, the full height of a horizontal one.
pub open spec fn spans_across(area: Rect, vertical: bool, rects: Seq<Rect>) -> bool {
    forall|i: int|
        0 <= i < rects.len() ==> if vertical {
            (#[trigger] rects[i]).x == area.x && rects[i].width == area.width
        } else {
            rects[i].y == area.y && rects[i].height == area.height
        }
}

/// Where a rectangle starts along a cut: its top for a vertical cut, its left
/// edge for a horizontal one.
pub open spec fn lead(vertical: bool, r: Rect) -> int {
    if vertical {
        r.y as int
    } else {
        r.x as int
    }
}

/// Where a rectangle ends along a cut.
pub open spec fn end(vertical: bool, r: Rect) -> int {
    if vertical {
        r.y + r.height
    } else {
        r.x + r.width
    }
}

/// Where an area ends along a cut, its far edge held to the coordinate range.
pub open spec fn area_end(vertical: bool, area: Rect) -> int {
    if vertical {
        sat_add16(area.y, area.height)
    } else {
        sat_add16(area.x, area.width)
    }
}

/// Whether `rects` lie within `area` along the cut, in order and without
/// overlap: each ends at or before the next one starts.
pub open spec fn laid_in_order(area: Rect, vertical: bool, rects: Seq<Rect>) -> bool {
    &&& forall|i: int|
        0 <= i < rects.len() ==> lead(vertical, area) <= lead(vertical, #[trigger] rects[i]) && end(
            vertical,
            rects[i],
        ) <= area_end(vertical, area)
    &&& forall|i: int, j: int|
        0 <= i < j < rects.len() ==> end(vertical, #[trigger] rects[i]) <= lead(vertical, #[trigger] rects[j])
}

/// Cut `area` by the constraints.
///
/// Trusted: calls `ratatui::layout::Layout::split` on a layout of the same
/// constraints in the same direction, with no margin. Its solver makes one
/// segment per constraint, and each segment keeps the area's position and
/// size across the cut (`changes_to_rects` copies them). The constraints it
/// adds as required pin the outer edges to the area's bounds, keep every edge
/// within them and keep the edges in order (`configure_area`,
/// `configure_variable_in_area_constraints`, `configure_variable_constraints`),
/// and rounding them to cells keeps that order; so the segments come out in
/// constraint order, within the area, without overlap. Where exactly each edge
/// falls is left to the solver, which may settle ties differently from one
/// process to the next, so nothing more is stated of it. The `expect` inside
/// `split` is not reached: those required constraints always hold together.
#[verifier::external_body]
fn split_area(area: Rect, vertical: bool, constraints: &Vec<Constraint>) -> (r: Vec<Rect>)
    ensures
        r@.len() == constraints@.len(),
        spans_across(area, vertical, r@),
        laid_in_order(area, vertical, r@),
{
    let cs: Vec<rl::Constraint> = constraints.iter().map(|c| match *c {
        Constraint::Length(n) => rl::Constraint::Length(n),
        Constraint::Percentage(n) => rl::Constraint::Percentage(n),
        Constraint::Min(n) => rl::Constraint::Min(n),
    }).collect();
    let dir = if vertical { rl::Direction::Vertical } else { rl::Direction::Horizontal };
    let whole = rl::Rect { x: area.x, y: area.y, width: area.width, height: area.height };
    rl::Layout::new(dir, cs).split(whole).iter().map(|r| Rect { x: r.x, y: r.y, width: r.width, height: r.height }).collect()
}

/// Where everything goes on one frame.
#[derive(Clone, Copy, Debug, PartialEq, Eq, Structural)]
pub struct Frames {
    pub header: Rect,
    pub messages: Rect,
    pub signals: Rect,
    pub rx: Rect,
    /// The band under the receive table: the cyclic strip, or the panels.
    pub band: Rect,
    pub status: Rect,
    pub hints: Rect,
}

/// The rows of the screen, top to bottom: header, the message and signal
/// panes (45%), the receive table (taking the slack), the band, status and
/// key hints.
pub open spec fn screen_rows(band: u16) -> Seq<Constraint> {
    seq![
        Constraint::Length(1),
        Constraint::Percentage(45),
        Constraint::Min(4),
        Constraint::Length(band),
        Constraint::Length(1),
        Constraint::Length(1),
    ]
}

/// How the message and signal panes share their row: side by side with a
/// fixed 38-column message list when the terminal is 110 wide or more, side
/// by side 40/60 from 80, stacked half and half below that.
pub open spec fn top_split(width: u16) -> (bool, Seq<Constraint>) {
    if width >= 110 {
        (false, seq![Constraint::Length(38), Constraint::Min(40)])
    } else if width >= 80 {
        (false, seq![Constraint::Percentage(40), Constraint::Percentage(60)])
    } else {
        (true, seq![Constraint::Percentage(50), Constraint::Percentage(50)])
    }
}

/// The constraints of the screen's rows (see [`screen_rows`]).
pub fn screen_constraints(band: u16) -> (cs: Vec<Constraint>)
    ensures
        cs@ == screen_rows(band),
{
    let mut cs: Vec<Constraint> = Vec::new();
    cs.push(Constraint::Length(1));
    cs.push(Constraint::Percentage(45));
    cs.push(Constraint::Min(4));
    cs.push(Constraint::Length(band));
    cs.push(Constraint::Length(1));
    cs.push(Constraint::Length(1));
    proof {
        assert(cs@ =~= screen_rows(band));
    }
    cs
}

/// How the top two panes share their row (see [`top_split`]): whether they
/// stack, and the constraints.
pub fn top_constraints(width: u16) -> (r: (bool, Vec<Constraint>))
    ensures
        r.0 == top_split(width).0,
        r.1@ == top_split(width).1,
{
    let mut tc: Vec<Constraint> = Vec::new();
    let vertical = if width >= 110 {
        tc.push(Constraint::Length(38));
        tc.push(Constraint::Min(40));
        false
    } else if width >= 80 {
        tc.push(Constraint::Percentage(40));
        tc.push(Constraint::Percentage(60));
        false
    } else {
        tc.push(Constraint::Percentage(50));
        tc.push(Constraint::Percentage(50));
        true
    };
    proof {
        assert(tc@ =~= top_split(width).1);
    }
    (vertical, tc)
}

/// The frame given the six screen rows and the two top panes: header,
/// receive table, band, status and hints are rows 0, 2, 3, 4 and 5; the
/// message and signal panes are the two pieces of row 1.
pub open spec fn spec_frames(rows: Seq<Rect>, top: Seq<Rect>) -> Frames {
    Frames { header: rows[0], messages: top[0], signals: top[1], rx: rows[2], band: rows[3], status: rows[4], hints: rows[5] }
}

/// Assemble the frame from the rows and the top panes (see [`spec_frames`]).
pub fn frames(rows: &Vec<Rect>, top: &Vec<Rect>) -> (f: Frames)
    requires
        rows@.len() == 6,
        top@.len() == 2,
    ensures
        f == spec_frames(rows@, top@),
{
    Frames { header: rows[0], messages: top[0], signals: top[1], rx: rows[2], band: rows[3], status: rows[4], hints: rows[5] }
}

/// Whether a frame is one that splitting `area` can give: header, the top
/// panes, receive table, band, status and hints lie top to bottom in that
/// order within the terminal, without overlap; every row spans the terminal's
/// width; and the two top panes share one row, the message pane above the
/// signal pane at full width when [`top_split`] stacks them, else to its left
/// at the row's height.
pub open spec fn spec_split(area: Rect, f: Frames) -> bool {
    &&& full_width(area, f.header)
    &&& full_width(area, f.rx)
    &&& full_width(area, f.band)
    &&& full_width(area, f.status)
    &&& full_width(area, f.hints)
    &&& if top_split(area.width).0 {
        &&& full_width(area, f.messages) && full_width(area, f.signals)
        &&& end(true, f.messages) <= f.signals.y
    } else {
        &&& f.messages.y == f.signals.y && f.messages.height == f.signals.height
        &&& end(false, f.messages) <= f.signals.x
    }
    &&& area.y <= f.header.y
    &&& end(true, f.header) <= f.messages.y && end(true, f.header) <= f.signals.y
    &&& end(true, f.messages) <= f.rx.y && end(true, f.signals) <= f.rx.y
    &&& end(true, f.rx) <= f.band.y
    &&& end(true, f.band) <= f.status.y
    &&& end(true, f.status) <= f.hints.y
    &&& end(true, f.hints) <= sat_add16(area.y, area.height)
}

/// Whether `r` spans the width of `area`.
pub open spec fn full_width(area: Rect, r: Rect) -> bool {
    r.x == area.x && r.width == area.width
}

/// Split the terminal, with `band` rows under the receive table: the rows of
/// [`screen_rows`], then row 1 cut by [`top_split`], so the top two panes sit
/// side by side when there is room and stack when there is not, rather than
/// being squeezed into uselessness. Where the rows fall is ratatui's solver's
/// to decide; what holds of every outcome is [`spec_split`].
pub fn split(area: Rect, band: u16) -> (f: Frames)
    ensures
        spec_split(area, f),
{
    let cs = screen_constraints(band);
    let rows = split_area(area, true, &cs);
    let (vertical, tc) = top_constraints(area.width);
    let top = split_area(rows[1], vertical, &tc);
    proof {
        assert(rows@[1].x == area.x && rows@[1].width == area.width);
        let r = rows@;
        assert(lead(true, r[0]) >= lead(true, area));
        assert(end(true, r[0]) <= lead(true, r[1]));
        assert(end(true, r[1]) <= lead(true, r[2]));
        assert(end(true, r[2]) <= lead(true, r[3]));
        assert(end(true, r[3]) <= lead(true, r[4]));
        assert(end(true, r[4]) <= lead(true, r[5]));
        assert(end(true, r[5]) <= area_end(true, area));
        assert(end(true, r[1]) <= area_end(true, area));
        assert(area_end(true, r[1]) == end(true, r[1]));
        let t = top@;
        assert(lead(vertical, t[0]) >= lead(vertical, r[1]) && end(vertical, t[0]) <= area_end(vertical, r[1]));
        assert(lead(vertical, t[1]) >= lead(vertical, r[1]) && end(vertical, t[1]) <= area_end(vertical, r[1]));
        assert(end(vertical, t[0]) <= lead(vertical, t[1]));
    }
    frames(&rows, &top)
}

/// The most rows a panel lists before it scrolls.
pub const PANEL_ROWS: u16 = 6;

/// The height of a panel listing `rows` rows: its title line and column
/// header, and between one and [`PANEL_ROWS`] rows.
pub open spec fn spec_panel_height(rows: usize) -> u16 {
    if rows == 0 {
        3
    } else if rows >= PANEL_ROWS {
        (PANEL_ROWS + 2) as u16
    } else {
        (rows + 2) as u16
    }
}

pub fn panel_height(rows: usize) -> (h: u16)
    ensures
        h == spec_panel_height(rows),
{
    if rows == 0 {
        3
    } else if rows >= PANEL_ROWS as usize {
        PANEL_ROWS + 2
    } else {
        rows as u16 + 2
    }
}

/// Whether two open panels are stacked rather than set side by side: when
/// the terminal is under 120 columns wide.
pub open spec fn stacked(cyclic: bool, rules: bool, width: u16) -> bool {
    cyclic && rules && width < 120
}

/// Whether two open panels are stacked (see [`stacked`]).
pub fn stacked_panels(cyclic: bool, rules: bool, width: u16) -> (r: bool)
    ensures
        r == stacked(cyclic, rules, width),
{
    cyclic && rules && width < 120
}

/// The height of the band under the receive table: one line for the cyclic
/// strip when no panel is open; the two panels' heights together (at most
/// 12) when they are stacked; else the taller open panel.
pub open spec fn spec_band_height(cyclic: bool, cyclic_rows: usize, rules: bool, rules_rows: usize, width: u16) -> u16 {
    let c: u16 = if cyclic { spec_panel_height(cyclic_rows) } else { 0 };
    let r: u16 = if rules { spec_panel_height(rules_rows) } else { 0 };
    if !cyclic && !rules {
        1
    } else if stacked(cyclic, rules, width) {
        if c + r <= 12 { (c + r) as u16 } else { 12 }
    } else if c >= r {
        c
    } else {
        r
    }
}

pub fn band_height(cyclic: bool, cyclic_rows: usize, rules: bool, rules_rows: usize, width: u16) -> (h: u16)
    ensures
        h == spec_band_height(cyclic, cyclic_rows, rules, rules_rows, width),
{
    let c: u16 = if cyclic { panel_height(cyclic_rows) } else { 0 };
    let r: u16 = if rules { panel_height(rules_rows) } else { 0 };
    if !cyclic && !rules {
        1
    } else if stacked_panels(cyclic, rules, width) {
        if c + r <= 12 { c + r } else { 12 }
    } else if c >= r {
        c
    } else {
        r
    }
}

/// Where the two panels go within the band, as (cyclic, rules): an open
/// panel alone takes the whole band and a closed one gets an empty rectangle;
/// two open panels are stacked, the cyclic one on top with up to
/// `cyclic_height` rows, or else set side by side, the cyclic one on the left
/// half.
pub open spec fn spec_split_band(band: Rect, cyclic: bool, rules: bool, stack: bool, cyclic_height: u16) -> (Rect, Rect) {
    if cyclic && rules {
        if stack {
            let h: u16 = if cyclic_height <= band.height { cyclic_height } else { band.height };
            (
                Rect { height: h, ..band },
                Rect { y: sat_add16(band.y, h) as u16, height: (band.height - h) as u16, ..band },
            )
        } else {
            let w: u16 = (band.width / 2) as u16;
            (
                Rect { width: w, ..band },
                Rect { x: sat_add16(band.x, w) as u16, width: (band.width - w) as u16, ..band },
            )
        }
    } else if cyclic {
        (band, Rect::spec_default())
    } else if rules {
        (Rect::spec_default(), band)
    } else {
        (Rect::spec_default(), Rect::spec_default())
    }
}

pub fn split_band(band: Rect, cyclic: bool, rules: bool, stack: bool, cyclic_height: u16) -> (r: (Rect, Rect))
    ensures
        r == spec_split_band(band, cyclic, rules, stack, cyclic_height),
{
    if cyclic && rules {
        if stack {
            let h: u16 = if cyclic_height <= band.height { cyclic_height } else { band.height };
            (
                Rect { height: h, ..band },
                Rect { y: band.y.saturating_add(h), height: band.height - h, ..band },
            )
        } else {
            let w: u16 = band.width / 2;
            (
                Rect { width: w, ..band },
                Rect { x: band.x.saturating_add(w), width: band.width - w, ..band },
            )
        }
    } else if cyclic {
        (band, Rect::default())
    } else if rules {
        (Rect::default(), band)
    } else {
        (Rect::default(), Rect::default())
    }
}

/// One side of a modal box: what was asked for, but no more than the area
/// less a cell on each side, and at least one cell.
pub open spec fn fit_side(want: u16, room: u16) -> int {
    let avail: int = if room >= 2 {
        room - 2
    } else {
        0
    };
    let w: int = if want <= avail {
        want as int
    } else {
        avail
    };
    if w >= 1 {
        w
    } else {
        1
    }
}

/// A centred box for modals, clamped so it always fits.
pub fn centred(area: Rect, width: u16, height: u16) -> (r: Rect)
    requires
        area.x + area.width <= u16::MAX,
        area.y + area.height <= u16::MAX,
    ensures
        r.width == fit_side(width, area.width),
        r.height == fit_side(height, area.height),
        r.x == area.x + (if area.width >= r.width {
            area.width - r.width
        } else {
            0
        }) / 2,
        r.y == area.y + (if area.height >= r.height {
            area.height - r.height
        } else {
            0
        }) / 2,
{
    let w = width.min(area.width.saturating_sub(2)).max(1);
    let h = height.min(area.height.saturating_sub(2)).max(1);
    Rect {
        x: area.x + (area.width.saturating_sub(w)) / 2,
        y: area.y + (area.height.saturating_sub(h)) / 2,
        width: w,
        height: h,
    }
}

/// The largest useful scroll offset: the one that shows the last row at the
/// bottom of the window.
pub open spec fn max_scroll(height: int, total: int) -> int {
    if total >= height {
        total - height
    } else {
        0
    }
}

/// The scroll offset that keeps row `cursor` in a window of `height` rows over
/// `total` rows: the current offset (pulled back within range) unless the
/// cursor is above it or below the window, in which case the window moves just
/// far enough to show it.
pub open spec fn spec_scroll_to_show(scroll: int, cursor: int, height: int, total: int) -> int {
    if height == 0 {
        0
    } else {
        let m = max_scroll(height, total);
        let s = if scroll <= m {
            scroll
        } else {
            m
        };
        let t = if cursor < s {
            cursor
        } else if cursor >= s + height {
            cursor + 1 - height
        } else {
            s
        };
        if t <= m {
            t
        } else {
            m
        }
    }
}

/// Keep a cursor visible in a window of `height` rows without jumping around:
/// scroll only when the cursor would otherwise leave the window.
pub fn scroll_to_show(scroll: usize, cursor: usize, height: usize, total: usize) -> (r: usize)
    ensures
        r == spec_scroll_to_show(scroll as int, cursor as int, height as int, total as int),
        r <= max_scroll(height as int, total as int),
        height > 0 && cursor < total ==> r <= cursor < r + height,
        height > 0 && scroll <= max_scroll(height as int, total as int) && scroll <= cursor < scroll
            + height ==> r == scroll,
{
    if height == 0 {
        return 0;
    }
    let max = total.saturating_sub(height);
    let mut s = scroll.min(max);
    if cursor < s {
        s = cursor;
    } else if cursor - s >= height {
        s = cursor - (height - 1);
    }
    s.min(max)
}

/// The ellipsis that marks cut text.
pub open spec fn ellipsis() -> char {
    '…'
}

/// Text elided in the middle to `width` characters: unchanged when it fits,
/// otherwise the first half (rounded up) of `width - 1` characters, an
/// ellipsis, and the last characters; at a width of one or none, only
/// ellipses.
pub open spec fn spec_elide(s: Seq<char>, width: nat) -> Seq<char> {
    if s.len() <= width {
        s
    } else if width <= 1 {
        Seq::new(width, |i: int| ellipsis())
    } else {
        let keep = width - 1;
        let head = (keep + 1) / 2;
        let tail = keep - head;
        s.subrange(0, head) + seq![ellipsis()] + s.subrange(s.len() - tail, s.len() as int)
    }
}

/// Text cut at `width` characters: unchanged when it fits, otherwise the
/// first `width - 1` characters and an ellipsis, or nothing at width zero.
pub open spec fn spec_clip(s: Seq<char>, width: nat) -> Seq<char> {
    if s.len() <= width {
        s
    } else if width == 0 {
        Seq::empty()
    } else {
        s.subrange(0, width - 1) + seq![ellipsis()]
    }
}

/// Append `s[from..to]` to `out`.
fn push_range(out: &mut Vec<char>, s: &Vec<char>, from: usize, to: usize)
    requires
        from <= to <= s@.len(),
    ensures
        final(out)@ == old(out)@ + s@.subrange(from as int, to as int),
{
    let mut i = from;
    while i < to
        invariant
            from <= i <= to <= s@.len(),
            out@ == old(out)@ + s@.subrange(from as int, i as int),
        decreases to - i,
    {
        out.push(s[i]);
        proof {
            assert(s@.subrange(from as int, i + 1) =~= s@.subrange(from as int, i as int).push(s@[i as int]));
        }
        i = i + 1;
    }
}

/// Elide in the middle. DBC names within a family share a long prefix
/// (`TsacCellboard1Voltage`, `TsacCellboard2Temperature`), so cutting the tail
/// loses the part that says what the signal *is*.
///
/// This is readability, not identity: at a narrow width two names in the same
/// family can still render alike. The id column beside them is what actually
/// distinguishes rows, and it is never elided.
pub fn elide(text: &str, width: usize) -> (r: String)
    ensures
        r@ == spec_elide(text@, width as nat),
{
    let chars = chars_of(text);
    let n = chars.len();
    let mut out: Vec<char> = Vec::new();
    if n <= width {
        return string_of(&chars);
    }
    if width <= 1 {
        let mut i: usize = 0;
        while i < width
            invariant
                0 <= i <= width <= 1,
                out@ == Seq::new(i as nat, |j: int| ellipsis()),
            decreases width - i,
        {
            out.push('…');
            proof {
                assert(out@ =~= Seq::new((i + 1) as nat, |j: int| ellipsis()));
            }
            i = i + 1;
        }
        return string_of(&out);
    }
    let keep = width - 1;
    let head = keep - keep / 2;
    let tail = keep - head;
    push_range(&mut out, &chars, 0, head);
    out.push('…');
    push_range(&mut out, &chars, n - tail, n);
    proof {
        assert(head == (keep + 1) / 2);
        assert(out@ =~= spec_elide(text@, width as nat));
    }
    string_of(&out)
}

/// Cut a composed row at the right edge. Rows are column-aligned, so trimming
/// the tail preserves the layout; [`elide`] would cut through the columns.
pub fn clip(text: &str, width: usize) -> (r: String)
    ensures
        r@ == spec_clip(text@, width as nat),
{
    let chars = chars_of(text);
    if chars.len() <= width {
        return string_of(&chars);
    }
    let mut out: Vec<char> = Vec::new();
    if width == 0 {
        return string_of(&out);
    }
    push_range(&mut out, &chars, 0, width - 1);
    out.push('…');
    proof {
        assert(out@ =~= spec_clip(text@, width as nat));
    }
    string_of(&out)
}

/// Clipping never widens text, keeps what fits as it is, and keeps the leading
/// characters of what does not.
pub proof fn law_clip_keeps_the_leading_columns(s: Seq<char>, width: nat)
    ensures
        spec_clip(s, width).len() <= width || spec_clip(s, width) == s,
        spec_clip(s, width).len() <= s.len(),
        s.len() <= width ==> spec_clip(s, width) == s,
        s.len() > width && width > 0 ==> spec_clip(s, width).subrange(0, width - 1) == s.subrange(
            0,
            width - 1,
        ),
{
    if s.len() > width && width > 0 {
        assert(spec_clip(s, width).subrange(0, width - 1) =~= s.subrange(0, width - 1));
    }
}

/// Eliding never widens text, keeps what fits as it is, and keeps both ends of
/// what does not: the first half of the room and the last characters.
pub proof fn law_elide_keeps_both_ends(s: Seq<char>, width: nat)
    ensures
        s.len() <= width ==> spec_elide(s, width) == s,
        s.len() > width ==> spec_elide(s, width).len() == width,
        s.len() > width && width >= 2 ==> {
            let keep = width - 1;
            let head = (keep + 1) / 2;
            let tail = keep - head;
            &&& spec_elide(s, width).subrange(0, head) == s.subrange(0, head)
            &&& spec_elide(s, width).subrange(width - tail, width as int) == s.subrange(
                s.len() - tail,
                s.len() as int,
            )
        },
{
    if s.len() > width && width >= 2 {
        let keep = width - 1;
        let head = (keep + 1) / 2;
        let tail = keep - head;
        let e = spec_elide(s, width);
        assert(e.subrange(0, head) =~= s.subrange(0, head));
        assert(e.subrange(width - tail, width as int) =~= s.subrange(s.len() - tail, s.len() as int));
    }
}

} // verus!
