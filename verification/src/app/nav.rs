//! Cursor and scroll movement, shared by every pane, and the part of the
//! normal-mode reducer that moves them: counts, `gg`, motions, paging, the
//! window keys, clicks, the wheel and the panel toggles.
//!
//! The caller owns what the panes list; it hands in how many rows each pane
//! has and where each was last drawn, and this decides where the cursors go.

use vstd::prelude::*;

use super::action::{Action, Pane, WindowSpot, spec_header_rows};
use super::picker::picker_move;
use super::{Pending, Scroll};
use crate::ui::layout::{LayoutMap, max_scroll, scroll_to_show, spec_rect_of, spec_scroll_to_show};

verus! {

/// How many rows each pane lists right now.
#[derive(Clone, Copy, Debug, PartialEq, Eq, Structural)]
pub struct Lens {
    pub messages: usize,
    pub signals: usize,
    pub rx: usize,
    pub cyclic: usize,
    pub rules: usize,
}

pub open spec fn spec_len(l: Lens, p: Pane) -> usize {
    match p {
        Pane::Messages => l.messages,
        Pane::Signals => l.signals,
        Pane::Rx => l.rx,
        Pane::Cyclic => l.cyclic,
        Pane::Rules => l.rules,
    }
}

impl Lens {
    pub fn of(&self, p: Pane) -> (n: usize)
        ensures
            n == spec_len(*self, p),
    {
        match p {
            Pane::Messages => self.messages,
            Pane::Signals => self.signals,
            Pane::Rx => self.rx,
            Pane::Cyclic => self.cyclic,
            Pane::Rules => self.rules,
        }
    }
}

/// The largest count a motion takes.
pub const MAX_COUNT: u32 = 100_000;

/// Where the keyboard is: the focused pane, each pane's cursor and scroll, a
/// count being typed, a half-typed `gg`, and which optional panels are open.
#[derive(Clone, Copy, Debug, PartialEq, Eq, Structural)]
pub struct Nav {
    pub pane: Pane,
    pub msg_index: usize,
    pub sig_index: usize,
    pub rx_index: usize,
    pub cyclic_index: usize,
    pub rules_index: usize,
    pub msg_scroll: Scroll,
    pub sig_scroll: Scroll,
    pub rx_scroll: Scroll,
    pub cyclic_scroll: Scroll,
    pub rules_scroll: Scroll,
    /// A count typed before a motion, e.g. the `12` of `12j`.
    pub count: Option<u32>,
    /// The count as typed for the last motion, or `None` when the user typed
    /// no digits.
    pub explicit_count: Option<u32>,
    pub pending: Pending,
    pub show_cyclic_panel: bool,
    pub show_rules_panel: bool,
}

pub open spec fn index_of(n: Nav, p: Pane) -> usize {
    match p {
        Pane::Messages => n.msg_index,
        Pane::Signals => n.sig_index,
        Pane::Rx => n.rx_index,
        Pane::Cyclic => n.cyclic_index,
        Pane::Rules => n.rules_index,
    }
}

pub open spec fn scroll_of(n: Nav, p: Pane) -> Scroll {
    match p {
        Pane::Messages => n.msg_scroll,
        Pane::Signals => n.sig_scroll,
        Pane::Rx => n.rx_scroll,
        Pane::Cyclic => n.cyclic_scroll,
        Pane::Rules => n.rules_scroll,
    }
}

pub open spec fn with_index(n: Nav, p: Pane, i: usize) -> Nav {
    match p {
        Pane::Messages => Nav { msg_index: i, ..n },
        Pane::Signals => Nav { sig_index: i, ..n },
        Pane::Rx => Nav { rx_index: i, ..n },
        Pane::Cyclic => Nav { cyclic_index: i, ..n },
        Pane::Rules => Nav { rules_index: i, ..n },
    }
}

pub open spec fn with_scroll(n: Nav, p: Pane, s: Scroll) -> Nav {
    match p {
        Pane::Messages => Nav { msg_scroll: s, ..n },
        Pane::Signals => Nav { sig_scroll: s, ..n },
        Pane::Rx => Nav { rx_scroll: s, ..n },
        Pane::Cyclic => Nav { cyclic_scroll: s, ..n },
        Pane::Rules => Nav { rules_scroll: s, ..n },
    }
}

/// Visible rows in a pane as of the last frame: its height less its header
/// rows and bottom border, and at least one.
pub open spec fn spec_page_size(layout: LayoutMap, p: Pane) -> usize {
    let h = spec_rect_of(layout, p).height;
    let chrome = spec_header_rows(p) + 1;
    if h > chrome {
        (h - chrome) as usize
    } else {
        1
    }
}

/// `v` held within `lo..=hi` (for `lo <= hi`).
pub open spec fn clamp(v: int, lo: int, hi: int) -> int {
    if v < lo {
        lo
    } else if v > hi {
        hi
    } else {
        v
    }
}

/// Put the focused pane's cursor on row `index`, or its last row when there
/// are fewer. The pane's view follows the cursor again, and choosing another
/// message sends the signal pane back to its top. An empty pane keeps
/// everything as it is.
pub open spec fn spec_set_cursor(n: Nav, lens: Lens, index: int) -> Nav {
    let len = spec_len(lens, n.pane);
    if len == 0 {
        n
    } else {
        let i = clamp(index, 0, len - 1) as usize;
        let n1 = with_scroll(n, n.pane, Scroll { follow: true, ..scroll_of(n, n.pane) });
        let n2 = with_index(n1, n.pane, i);
        if n.pane == Pane::Messages {
            Nav { sig_index: 0, sig_scroll: Scroll { offset: 0, follow: true }, ..n2 }
        } else {
            n2
        }
    }
}

/// Move the focused pane's cursor by `delta` rows, stopping at either end.
pub open spec fn spec_move(n: Nav, lens: Lens, delta: int) -> Nav {
    let len = spec_len(lens, n.pane);
    if len == 0 {
        n
    } else {
        spec_set_cursor(n, lens, clamp(index_of(n, n.pane) + delta, 0, len - 1))
    }
}

/// The panes Tab can reach: the three fixed ones, then each optional panel
/// while it is open.
pub open spec fn spec_panes(n: Nav) -> Seq<Pane> {
    seq![Pane::Messages, Pane::Signals, Pane::Rx] + (if n.show_cyclic_panel {
        seq![Pane::Cyclic]
    } else {
        Seq::empty()
    }) + (if n.show_rules_panel {
        seq![Pane::Rules]
    } else {
        Seq::empty()
    })
}

/// Where the focused pane sits among the reachable ones, or 0 when it is not
/// among them.
pub open spec fn pane_position(n: Nav) -> int {
    match n.pane {
        Pane::Messages => 0,
        Pane::Signals => 1,
        Pane::Rx => 2,
        Pane::Cyclic => if n.show_cyclic_panel {
            3
        } else {
            0
        },
        Pane::Rules => if n.show_rules_panel {
            if n.show_cyclic_panel {
                4
            } else {
                3
            }
        } else {
            0
        },
    }
}

/// The pane `step` places along from the focused one among the reachable
/// panes, wrapping round.
pub open spec fn spec_next_pane(n: Nav, step: int) -> Pane {
    let ps = spec_panes(n);
    ps[(pane_position(n) + step) % (ps.len() as int)]
}

/// `10 * c`, capped at `u32::MAX`.
pub open spec fn times_ten(c: u32) -> int {
    if 10 * c > u32::MAX {
        u32::MAX as int
    } else {
        10 * c
    }
}

/// The count after a digit: a leading zero is no count, so `0` stays free;
/// otherwise the digit is appended, and the count held at [`MAX_COUNT`].
pub open spec fn spec_count_digit(count: Option<u32>, d: u32) -> Option<u32> {
    if d != 0 || count is Some {
        let c: u32 = match count {
            Some(c) => c,
            None => 0,
        };
        let next = times_ten(c) + d;
        Some(
            (if next <= MAX_COUNT {
                next
            } else {
                MAX_COUNT as int
            }) as u32,
        )
    } else {
        count
    }
}

/// The count a motion uses: the typed count held within `1..=MAX_COUNT`, or 1.
pub open spec fn spec_motion_count(count: Option<u32>) -> int {
    match count {
        Some(c) => clamp(c as int, 1, MAX_COUNT as int),
        None => 1,
    }
}

/// `H`, `M` and `L`: the cursor to the top, middle or bottom row of what is
/// on screen, but no further than the last row.
pub open spec fn spec_window(n: Nav, spot: WindowSpot, lens: Lens, layout: LayoutMap) -> Nav {
    let page = spec_page_size(layout, n.pane) as int;
    let top = scroll_of(n, n.pane).offset as int;
    let len = spec_len(lens, n.pane) as int;
    let last = if len >= 1 {
        len - 1
    } else {
        0
    };
    let target = match spot {
        WindowSpot::Top => top,
        WindowSpot::Middle => top + page / 2,
        WindowSpot::Bottom => top + page - 1,
    };
    spec_set_cursor(n, lens, if target <= last {
        target
    } else {
        last
    })
}

/// A click: focus the pane, and put its cursor on the clicked row when the
/// pane has that row.
pub open spec fn spec_focus(n: Nav, pane: Pane, row: usize, lens: Lens) -> Nav {
    let n1 = Nav { pane, ..n };
    let r = scroll_of(n1, pane).offset + row;
    if r < spec_len(lens, pane) {
        spec_set_cursor(n1, lens, r)
    } else {
        n1
    }
}

/// The wheel: scroll the pane under the pointer (or the focused one) by
/// `step` rows, within its rows, and stop it following the cursor. Focus and
/// cursors stay where they are.
pub open spec fn spec_scroll_in(n: Nav, which: Option<Pane>, step: i32, lens: Lens, layout: LayoutMap) -> Nav {
    let p = match which {
        Some(p) => p,
        None => n.pane,
    };
    let len = spec_len(lens, p) as int;
    let pg = spec_page_size(layout, p) as int;
    let max = if len >= pg {
        len - pg
    } else {
        0
    };
    let next = clamp(scroll_of(n, p).offset + step, 0, max) as usize;
    with_scroll(n, p, Scroll { offset: next, follow: false })
}

/// The rows a paging action moves: a page, or half a page (at least one row).
pub open spec fn page_rows(action: Action, page: int) -> int {
    match action {
        Action::HalfPage(_) => if page / 2 >= 1 {
            page / 2
        } else {
            1
        },
        _ => page,
    }
}

/// A motion or panel toggle with the count already taken; `typed` is the
/// count as typed. The second component says whether the action was one.
pub open spec fn spec_motion(n: Nav, action: Action, typed: Option<u32>, lens: Lens, layout: LayoutMap) -> (Nav, bool) {
    let count = spec_motion_count(typed);
    let page = spec_page_size(layout, n.pane) as int;
    match action {
        Action::NextPane => (Nav { pane: spec_next_pane(n, 1), ..n }, true),
        Action::PrevPane => (Nav { pane: spec_next_pane(n, -1), ..n }, true),
        Action::Move(step) => (spec_move(n, lens, step * count), true),
        Action::Page(step) => (spec_move(n, lens, step * page_rows(action, page) * count), true),
        Action::HalfPage(step) => (spec_move(n, lens, step * page_rows(action, page) * count), true),
        Action::Home => (spec_set_cursor(n, lens, 0), true),
        // `G` alone goes to the end; `42G` goes to row 42, as in vim.
        Action::End => match typed {
            Some(c) => (spec_set_cursor(n, lens, if c >= 1 {
                c - 1
            } else {
                0
            }), true),
            None => (spec_set_cursor(n, lens, usize::MAX as int), true),
        },
        Action::Window(spot) => (spec_window(n, spot, lens, layout), true),
        Action::FocusAndSelect(pane, row) => (spec_focus(n, pane, row, lens), true),
        // Deliberately does not move focus: a stray wheel event must never
        // displace where the keyboard is.
        Action::ScrollIn(which, step) => (spec_scroll_in(n, which, step, lens, layout), true),
        Action::ToggleCyclicPanel => {
            let show = !n.show_cyclic_panel;
            (Nav {
                show_cyclic_panel: show,
                pane: if !show && n.pane == Pane::Cyclic {
                    Pane::Messages
                } else {
                    n.pane
                },
                ..n
            }, true)
        },
        Action::ToggleRulesPanel => {
            let show = !n.show_rules_panel;
            (Nav {
                show_rules_panel: show,
                pane: if !show && n.pane == Pane::Rules {
                    Pane::Messages
                } else {
                    n.pane
                },
                ..n
            }, true)
        },
        _ => (n, false),
    }
}

/// The state after an action in normal mode, and whether the action was a
/// navigation one (the caller handles the rest). Every action but a count digit
/// ends a pending `gg`; every action but a digit and the first `g` consumes
/// the count.
pub open spec fn spec_update(n: Nav, action: Action, lens: Lens, layout: LayoutMap) -> (Nav, bool) {
    match action {
        Action::CountDigit(d) => (Nav { count: spec_count_digit(n.count, d), ..n }, true),
        Action::BeginG => (Nav { pending: Pending::G, ..n }, true),
        _ => spec_motion(
            Nav { pending: Pending::Nothing, explicit_count: n.count, count: None, ..n },
            action,
            n.count,
            lens,
            layout,
        ),
    }
}

/// Whether every cursor is on a row of its pane (or at 0 in an empty one).
pub open spec fn cursors_in_range(n: Nav, lens: Lens) -> bool {
    forall|p: Pane| #[trigger] index_of(n, p) < spec_len(lens, p) || index_of(n, p) == 0
}

impl Nav {
    /// Everything at the top, nothing typed, focus on the message list.
    pub fn new() -> (n: Nav)
        ensures
            n.pane == Pane::Messages,
            forall|p: Pane| #[trigger] index_of(n, p) == 0,
            forall|p: Pane| #[trigger] scroll_of(n, p) == (Scroll { offset: 0, follow: false }),
            n.count is None && n.explicit_count is None && n.pending == Pending::Nothing,
            !n.show_cyclic_panel && !n.show_rules_panel,
    {
        Nav {
            pane: Pane::Messages,
            msg_index: 0,
            sig_index: 0,
            rx_index: 0,
            cyclic_index: 0,
            rules_index: 0,
            msg_scroll: Scroll::default(),
            sig_scroll: Scroll::default(),
            rx_scroll: Scroll::default(),
            cyclic_scroll: Scroll::default(),
            rules_scroll: Scroll::default(),
            count: None,
            explicit_count: None,
            pending: Pending::Nothing,
            show_cyclic_panel: false,
            show_rules_panel: false,
        }
    }

    pub fn index(&self, p: Pane) -> (i: usize)
        ensures
            i == index_of(*self, p),
    {
        match p {
            Pane::Messages => self.msg_index,
            Pane::Signals => self.sig_index,
            Pane::Rx => self.rx_index,
            Pane::Cyclic => self.cyclic_index,
            Pane::Rules => self.rules_index,
        }
    }

    pub fn scroll(&self, p: Pane) -> (s: Scroll)
        ensures
            s == scroll_of(*self, p),
    {
        match p {
            Pane::Messages => self.msg_scroll,
            Pane::Signals => self.sig_scroll,
            Pane::Rx => self.rx_scroll,
            Pane::Cyclic => self.cyclic_scroll,
            Pane::Rules => self.rules_scroll,
        }
    }

    fn set_index(&mut self, p: Pane, i: usize)
        ensures
            *final(self) == with_index(*old(self), p, i),
    {
        match p {
            Pane::Messages => self.msg_index = i,
            Pane::Signals => self.sig_index = i,
            Pane::Rx => self.rx_index = i,
            Pane::Cyclic => self.cyclic_index = i,
            Pane::Rules => self.rules_index = i,
        }
    }

    fn set_scroll(&mut self, p: Pane, s: Scroll)
        ensures
            *final(self) == with_scroll(*old(self), p, s),
    {
        match p {
            Pane::Messages => self.msg_scroll = s,
            Pane::Signals => self.sig_scroll = s,
            Pane::Rx => self.rx_scroll = s,
            Pane::Cyclic => self.cyclic_scroll = s,
            Pane::Rules => self.rules_scroll = s,
        }
    }

    /// Put the focused pane's cursor on a row (see [`spec_set_cursor`]).
    pub fn set_cursor(&mut self, lens: &Lens, index: usize)
        ensures
            *final(self) == spec_set_cursor(*old(self), *lens, index as int),
    {
        let pane = self.pane;
        let len = lens.of(pane);
        if len == 0 {
            return;
        }
        let i = if index < len - 1 {
            index
        } else {
            len - 1
        };
        let s = self.scroll(pane);
        self.set_scroll(pane, Scroll { offset: s.offset, follow: true });
        self.set_index(pane, i);
        if pane == Pane::Messages {
            self.sig_index = 0;
            self.sig_scroll = Scroll { offset: 0, follow: true };
        }
    }

    /// Move the focused pane's cursor by `delta` rows (see [`spec_move`]).
    fn move_cursor(&mut self, lens: &Lens, delta: i128)
        ensures
            *final(self) == spec_move(*old(self), *lens, delta as int),
    {
        let len = lens.of(self.pane);
        if len == 0 {
            return;
        }
        let cur = self.index(self.pane) as i128;
        let hi = (len - 1) as i128;
        let t: i128 = if delta < 0 - cur {
            0
        } else if delta > hi - cur {
            hi
        } else {
            cur + delta
        };
        self.set_cursor(lens, t as usize);
    }

    /// The panes Tab can reach right now. The optional panels join the cycle
    /// only while they are open.
    pub fn panes(&self) -> (ps: Vec<Pane>)
        ensures
            ps@ == spec_panes(*self),
    {
        let mut ps = Vec::new();
        ps.push(Pane::Messages);
        ps.push(Pane::Signals);
        ps.push(Pane::Rx);
        if self.show_cyclic_panel {
            ps.push(Pane::Cyclic);
        }
        if self.show_rules_panel {
            ps.push(Pane::Rules);
        }
        proof {
            assert(ps@ =~= spec_panes(*self));
        }
        ps
    }

    /// The pane `step` places along from the focused one (see
    /// [`spec_next_pane`]).
    pub fn next_pane(&self, step: i32) -> (p: Pane)
        ensures
            p == spec_next_pane(*self, step as int),
    {
        let ps = self.panes();
        let mut i: usize = 0;
        while i < ps.len() && ps[i] != self.pane
            invariant
                0 <= i <= ps@.len(),
                ps@ == spec_panes(*self),
                forall|j: int| 0 <= j < i ==> ps@[j] != self.pane,
            decreases ps@.len() - i,
        {
            i = i + 1;
        }
        let pos: usize = if i < ps.len() {
            i
        } else {
            0
        };
        proof {
            lemma_panes(*self);
            if i < ps.len() {
                assert(ps@[i as int] == self.pane);
            }
            assert(pos == pane_position(*self));
        }
        let r = picker_move(pos, step, ps.len());
        ps[r]
    }

    fn window(&mut self, spot: WindowSpot, lens: &Lens, layout: &LayoutMap)
        ensures
            *final(self) == spec_window(*old(self), spot, *lens, *layout),
    {
        let rows = page_size(layout, self.pane);
        let top = self.scroll(self.pane).offset;
        let len = lens.of(self.pane);
        let last = if len >= 1 {
            len - 1
        } else {
            0
        };
        let target = match spot {
            WindowSpot::Top => top,
            WindowSpot::Middle => top.saturating_add(rows / 2),
            WindowSpot::Bottom => top.saturating_add(rows - 1),
        };
        self.set_cursor(lens, if target <= last {
            target
        } else {
            last
        });
    }

    fn focus(&mut self, pane: Pane, row: usize, lens: &Lens)
        ensures
            *final(self) == spec_focus(*old(self), pane, row, *lens),
    {
        self.pane = pane;
        let off = self.scroll(pane).offset;
        let len = lens.of(pane);
        if row < len && off < len - row {
            self.set_cursor(lens, off + row);
        }
    }

    fn scroll_in(&mut self, which: Option<Pane>, step: i32, lens: &Lens, layout: &LayoutMap)
        ensures
            *final(self) == spec_scroll_in(*old(self), which, step, *lens, *layout),
    {
        let p = match which {
            Some(p) => p,
            None => self.pane,
        };
        let len = lens.of(p);
        let pg = page_size(layout, p);
        let max: i128 = if len >= pg {
            (len - pg) as i128
        } else {
            0
        };
        let cur = self.scroll(p).offset as i128 + step as i128;
        let next: i128 = if cur < 0 {
            0
        } else if cur > max {
            max
        } else {
            cur
        };
        self.set_scroll(p, Scroll { offset: next as usize, follow: false });
    }

    fn page(&mut self, step: i32, rows: i128, count: i128, lens: &Lens)
        requires
            1 <= rows <= 0x10000,
            1 <= count <= 100_000,
        ensures
            *final(self) == spec_move(*old(self), *lens, step * rows * count),
    {
        proof {
            assert(-0x8000_0000 * 0x10000 <= step as i128 * rows <= 0x8000_0000 * 0x10000)
                by (nonlinear_arith)
                requires
                    -0x8000_0000 <= step <= 0x7fff_ffff,
                    1 <= rows <= 0x10000,
            ;
        }
        let sp = step as i128 * rows;
        proof {
            assert(-0x8000_0000 * 0x10000 * 100_000 <= sp * count <= 0x8000_0000 * 0x10000 * 100_000)
                by (nonlinear_arith)
                requires
                    -0x8000_0000 * 0x10000 <= sp <= 0x8000_0000 * 0x10000,
                    1 <= count <= 100_000,
            ;
        }
        self.move_cursor(lens, sp * count);
    }

    fn motion(&mut self, action: &Action, typed: Option<u32>, lens: &Lens, layout: &LayoutMap) -> (handled: bool)
        ensures
            (*final(self), handled) == spec_motion(*old(self), *action, typed, *lens, *layout),
    {
        let count: i128 = match typed {
            Some(c) => if c < 1 {
                1
            } else if c > MAX_COUNT {
                MAX_COUNT as i128
            } else {
                c as i128
            },
            None => 1,
        };
        let page = page_size(layout, self.pane) as i128;
        match action {
            Action::NextPane => {
                self.pane = self.next_pane(1);
                true
            },
            Action::PrevPane => {
                self.pane = self.next_pane(-1);
                true
            },
            Action::Move(step) => {
                self.page(*step, 1, count, lens);
                true
            },
            Action::Page(step) => {
                self.page(*step, page, count, lens);
                true
            },
            Action::HalfPage(step) => {
                let half: i128 = if page / 2 >= 1 {
                    page / 2
                } else {
                    1
                };
                self.page(*step, half, count, lens);
                true
            },
            Action::Home => {
                self.set_cursor(lens, 0);
                true
            },
            Action::End => {
                match typed {
                    Some(c) => self.set_cursor(lens, if c >= 1 {
                        (c - 1) as usize
                    } else {
                        0
                    }),
                    None => self.set_cursor(lens, usize::MAX),
                }
                true
            },
            Action::Window(spot) => {
                self.window(*spot, lens, layout);
                true
            },
            Action::FocusAndSelect(pane, row) => {
                self.focus(*pane, *row, lens);
                true
            },
            Action::ScrollIn(which, step) => {
                self.scroll_in(*which, *step, lens, layout);
                true
            },
            Action::ToggleCyclicPanel => {
                let show = !self.show_cyclic_panel;
                self.show_cyclic_panel = show;
                if !show && self.pane == Pane::Cyclic {
                    self.pane = Pane::Messages;
                }
                true
            },
            Action::ToggleRulesPanel => {
                let show = !self.show_rules_panel;
                self.show_rules_panel = show;
                if !show && self.pane == Pane::Rules {
                    self.pane = Pane::Messages;
                }
                true
            },
            _ => false,
        }
    }

    /// Apply a normal-mode action (see [`spec_update`]). Returns whether it
    /// was a navigation action; the caller handles the others.
    pub fn update(&mut self, action: &Action, lens: &Lens, layout: &LayoutMap) -> (handled: bool)
        ensures
            (*final(self), handled) == spec_update(*old(self), *action, *lens, *layout),
    {
        match action {
            Action::CountDigit(d) => {
                if *d != 0 || self.count.is_some() {
                    let c: u64 = match self.count {
                        Some(c) => c as u64,
                        None => 0,
                    };
                    let t: u64 = if c * 10 > u32::MAX as u64 {
                        u32::MAX as u64
                    } else {
                        c * 10
                    };
                    let next = t + *d as u64;
                    self.count = Some(
                        if next <= MAX_COUNT as u64 {
                            next as u32
                        } else {
                            MAX_COUNT
                        },
                    );
                }
                return true;
            },
            Action::BeginG => {
                self.pending = Pending::G;
                return true;
            },
            _ => {},
        }
        self.pending = Pending::Nothing;
        let typed = self.count;
        self.explicit_count = typed;
        self.count = None;
        self.motion(action, typed, lens, layout)
    }
}

/// A pane's scroll offset for a frame with `rows` rows over `total` items:
/// while following the cursor, just enough to show it; detached by the
/// wheel, where the user left it, but never past the end of a list that has
/// since shrunk.
pub open spec fn spec_reconcile(s: Scroll, cursor: usize, rows: usize, total: usize) -> usize {
    if s.follow {
        spec_scroll_to_show(s.offset as int, cursor as int, rows as int, total as int) as usize
    } else if s.offset <= max_scroll(rows as int, total as int) {
        s.offset
    } else {
        max_scroll(rows as int, total as int) as usize
    }
}

/// Rows a pane shows, by pane.
#[derive(Clone, Copy, Debug, PartialEq, Eq, Structural)]
pub struct Rows {
    pub messages: usize,
    pub signals: usize,
    pub rx: usize,
    pub cyclic: usize,
    pub rules: usize,
}

pub open spec fn spec_rows(r: Rows, p: Pane) -> usize {
    match p {
        Pane::Messages => r.messages,
        Pane::Signals => r.signals,
        Pane::Rx => r.rx,
        Pane::Cyclic => r.cyclic,
        Pane::Rules => r.rules,
    }
}

fn reconcile_one(s: Scroll, cursor: usize, rows: usize, total: usize) -> (r: Scroll)
    ensures
        r == (Scroll { offset: spec_reconcile(s, cursor, rows, total), ..s }),
{
    let offset = if s.follow {
        scroll_to_show(s.offset, cursor, rows, total)
    } else {
        let m = total.saturating_sub(rows);
        if s.offset <= m {
            s.offset
        } else {
            m
        }
    };
    Scroll { offset, follow: s.follow }
}

impl Nav {
    /// Reconcile every pane's scroll offset against the rows this frame
    /// actually has (see [`spec_reconcile`]). Doing it on every frame rather
    /// than on resize is why there is no resize handler.
    pub fn reconcile(&mut self, rows: &Rows, lens: &Lens)
        ensures
            forall|p: Pane| #[trigger] scroll_of(*final(self), p) == (Scroll {
                offset: spec_reconcile(scroll_of(*old(self), p), index_of(*old(self), p), spec_rows(*rows, p), spec_len(*lens, p)),
                ..scroll_of(*old(self), p)
            }),
            forall|p: Pane| #[trigger] index_of(*final(self), p) == index_of(*old(self), p),
            final(self).pane == old(self).pane,
            final(self).count == old(self).count,
            final(self).explicit_count == old(self).explicit_count,
            final(self).pending == old(self).pending,
            final(self).show_cyclic_panel == old(self).show_cyclic_panel,
            final(self).show_rules_panel == old(self).show_rules_panel,
    {
        self.msg_scroll = reconcile_one(self.msg_scroll, self.msg_index, rows.messages, lens.messages);
        self.sig_scroll = reconcile_one(self.sig_scroll, self.sig_index, rows.signals, lens.signals);
        self.rx_scroll = reconcile_one(self.rx_scroll, self.rx_index, rows.rx, lens.rx);
        self.cyclic_scroll = reconcile_one(self.cyclic_scroll, self.cyclic_index, rows.cyclic, lens.cyclic);
        self.rules_scroll = reconcile_one(self.rules_scroll, self.rules_index, rows.rules, lens.rules);
    }
}

/// Visible rows in a pane, as of the last frame (see [`spec_page_size`]).
/// Takes the pane explicitly: the wheel can scroll one the keyboard is not
/// focused on.
pub fn page_size(layout: &LayoutMap, p: Pane) -> (n: usize)
    ensures
        n == spec_page_size(*layout, p),
        1 <= n <= u16::MAX,
{
    let h = layout.rect_of(p).height;
    let chrome = p.header_rows() + 1;
    if h > chrome {
        (h - chrome) as usize
    } else {
        1
    }
}

/// Moving a cursor keeps every cursor on a row of its pane: whatever the
/// action, a cursor that was on a row (or at 0 in an empty pane) still is.
pub proof fn law_cursors_stay_on_their_rows(n: Nav, action: Action, lens: Lens, layout: LayoutMap)
    requires
        cursors_in_range(n, lens),
    ensures
        cursors_in_range(spec_update(n, action, lens, layout).0, lens),
{
    let n0 = Nav { pending: Pending::Nothing, explicit_count: n.count, count: None, ..n };
    lemma_same_cursors(n, n0, lens);
    match action {
        Action::CountDigit(d) => lemma_same_cursors(n, spec_update(n, action, lens, layout).0, lens),
        Action::BeginG => lemma_same_cursors(n, spec_update(n, action, lens, layout).0, lens),
        Action::FocusAndSelect(pane, row) => {
            let n1 = Nav { pane, ..n0 };
            lemma_same_cursors(n0, n1, lens);
            let r = scroll_of(n1, pane).offset + row;
            if r < spec_len(lens, pane) {
                lemma_set_cursor_in_range(n1, lens, r);
            }
        },
        Action::Move(_) | Action::Page(_) | Action::HalfPage(_) | Action::Home | Action::End
        | Action::Window(_) => {
            let r = spec_update(n, action, lens, layout).0;
            assert(cursors_in_range(r, lens)) by {
                let len = spec_len(lens, n0.pane) as int;
                assert forall|v: int| 0 <= v implies cursors_in_range(spec_set_cursor(n0, lens, v), lens) by {
                    lemma_set_cursor_in_range(n0, lens, v);
                }
                if len > 0 {
                    assert forall|d: int| true implies cursors_in_range(spec_move(n0, lens, d), lens) by {
                        lemma_set_cursor_in_range(n0, lens, clamp(index_of(n0, n0.pane) + d, 0, len - 1));
                    }
                } else {
                    assert forall|d: int| true implies cursors_in_range(spec_move(n0, lens, d), lens) by {}
                }
            }
        },
        _ => lemma_same_cursors(n, spec_update(n, action, lens, layout).0, lens),
    }
}

proof fn lemma_same_cursors(a: Nav, b: Nav, lens: Lens)
    requires
        cursors_in_range(a, lens),
        a.msg_index == b.msg_index && a.sig_index == b.sig_index && a.rx_index == b.rx_index
            && a.cyclic_index == b.cyclic_index && a.rules_index == b.rules_index,
    ensures
        cursors_in_range(b, lens),
{
    assert forall|p: Pane| #[trigger] index_of(b, p) < spec_len(lens, p) || index_of(b, p) == 0 by {
        assert(index_of(a, p) == index_of(b, p));
    }
}

proof fn lemma_set_cursor_in_range(n: Nav, lens: Lens, i: int)
    requires
        cursors_in_range(n, lens),
        0 <= i,
    ensures
        cursors_in_range(spec_set_cursor(n, lens, i), lens),
{
    let r = spec_set_cursor(n, lens, i);
    assert forall|p: Pane| #[trigger] index_of(r, p) < spec_len(lens, p) || index_of(r, p) == 0 by {
        assert(index_of(n, p) < spec_len(lens, p) || index_of(n, p) == 0);
    }
}

proof fn lemma_panes(n: Nav)
    ensures
        spec_panes(n).len() == 3 + (if n.show_cyclic_panel { 1int } else { 0 }) + (if n.show_rules_panel { 1int } else { 0 }),
        spec_panes(n)[0] == Pane::Messages,
        spec_panes(n)[1] == Pane::Signals,
        spec_panes(n)[2] == Pane::Rx,
        n.show_cyclic_panel ==> spec_panes(n)[3] == Pane::Cyclic,
        n.show_rules_panel ==> spec_panes(n)[spec_panes(n).len() - 1] == Pane::Rules,
{
}

/// The wheel never displaces the keyboard: scrolling leaves the focus and
/// every cursor where they were, and keeps the scrolled view within its rows.
pub proof fn law_the_wheel_leaves_focus_alone(
    n: Nav,
    which: Option<Pane>,
    step: i32,
    lens: Lens,
    layout: LayoutMap,
)
    ensures
        ({
            let r = spec_update(n, Action::ScrollIn(which, step), lens, layout).0;
            let p = match which {
                Some(p) => p,
                None => n.pane,
            };
            &&& r.pane == n.pane
            &&& forall|q: Pane| #[trigger] index_of(r, q) == index_of(n, q)
            &&& !scroll_of(r, p).follow
            &&& scroll_of(r, p).offset + spec_page_size(layout, p) <= spec_len(lens, p)
                || scroll_of(r, p).offset == 0
        }),
{
}

/// A count is bounded, and it is spent: after any action but a digit or the
/// first `g`, no count is left pending, and `gg` is forgotten by anything but a
/// digit.
pub proof fn law_counts_are_bounded_and_spent(n: Nav, action: Action, lens: Lens, layout: LayoutMap)
    requires
        n.count matches Some(c) ==> c <= MAX_COUNT,
    ensures
        spec_update(n, action, lens, layout).0.count matches Some(c) ==> c <= MAX_COUNT,
        !(action is CountDigit) && !(action is BeginG) ==> spec_update(n, action, lens, layout).0.count
            is None,
        !(action is CountDigit) && !(action is BeginG) ==> spec_update(n, action, lens, layout).0.pending
            == Pending::Nothing,
{
    match action {
        Action::CountDigit(_) => {},
        Action::BeginG => {},
        _ => {
            let n0 = Nav { pending: Pending::Nothing, explicit_count: n.count, count: None, ..n };
            lemma_motion_keeps_count(n0, action, n.count, lens, layout);
        },
    }
}

proof fn lemma_set_cursor_keeps_count(n: Nav, lens: Lens, i: int)
    ensures
        spec_set_cursor(n, lens, i).count == n.count,
        spec_set_cursor(n, lens, i).pending == n.pending,
{
}

proof fn lemma_motion_keeps_count(n: Nav, action: Action, typed: Option<u32>, lens: Lens, layout: LayoutMap)
    ensures
        spec_motion(n, action, typed, lens, layout).0.count == n.count,
        spec_motion(n, action, typed, lens, layout).0.pending == n.pending,
{
    assert forall|i: int| #[trigger] spec_set_cursor(n, lens, i).count == n.count
        && spec_set_cursor(n, lens, i).pending == n.pending by {
        lemma_set_cursor_keeps_count(n, lens, i);
    }
    match action {
        Action::FocusAndSelect(pane, row) => {
            lemma_set_cursor_keeps_count(Nav { pane, ..n }, lens, scroll_of(Nav { pane, ..n }, pane).offset + row);
        },
        Action::Move(_) | Action::Page(_) | Action::HalfPage(_) => {
            let len = spec_len(lens, n.pane) as int;
            assert forall|d: int| #[trigger] spec_move(n, lens, d).count == n.count && spec_move(n, lens, d).pending == n.pending by {
                if len > 0 {
                    lemma_set_cursor_keeps_count(n, lens, clamp(index_of(n, n.pane) + d, 0, len - 1));
                }
            }
        },
        _ => {},
    }
}

} // verus!
