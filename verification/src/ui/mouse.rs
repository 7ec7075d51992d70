//! Mouse → [`Action`], under one rule: the mouse may only do what a key can
//! already do, and never anything destructive. No click sends a frame, and
//! nothing in the tool is mouse-only.

use vstd::prelude::*;

use crate::app::action::{Action, Pane, spec_header_rows};
use crate::app::Mode;
use crate::ui::layout::{LayoutMap, spec_contains, spec_rect_of};

verus! {

/// What the pointer did.
#[derive(Clone, Copy, Debug, PartialEq, Eq, Structural)]
pub enum MouseKind {
    LeftDown,
    ScrollDown,
    ScrollUp,
    /// Any other button, a release, a drag or a bare move.
    Other,
}

/// A pointer event at a cell of the terminal.
#[derive(Clone, Copy, Debug, PartialEq, Eq, Structural)]
pub struct MouseEvent {
    pub kind: MouseKind,
    pub column: u16,
    pub row: u16,
}

/// The first pane, in Tab order, whose last drawn rect holds the cell.
pub open spec fn spec_pane_at(col: u16, row: u16, layout: LayoutMap) -> Option<Pane> {
    if spec_contains(layout.messages, col, row) {
        Some(Pane::Messages)
    } else if spec_contains(layout.signals, col, row) {
        Some(Pane::Signals)
    } else if spec_contains(layout.rx, col, row) {
        Some(Pane::Rx)
    } else if spec_contains(layout.cyclic, col, row) {
        Some(Pane::Cyclic)
    } else if spec_contains(layout.rules, col, row) {
        Some(Pane::Rules)
    } else {
        None
    }
}

/// Which pane, and which visible row within it, the pointer is over: none on
/// a pane's title bar or column header, or on its bottom edge and below.
pub open spec fn spec_hit(col: u16, row: u16, layout: LayoutMap) -> Option<(Pane, usize)> {
    match spec_pane_at(col, row, layout) {
        None => None,
        Some(pane) => {
            let rect = spec_rect_of(layout, pane);
            let first = rect.y + spec_header_rows(pane);
            if row < first || row >= rect.y + rect.height {
                None
            } else {
                Some((pane, (row - first) as usize))
            }
        },
    }
}

/// The action a pointer event stands for. A modal owns the keyboard, and the
/// mouse too: a click must not quietly change the selection behind an open
/// prompt. The wheel scrolls the pane under the pointer, not the focused one,
/// three rows a notch.
pub open spec fn spec_map(event: MouseEvent, layout: LayoutMap, modal: bool) -> Action {
    if modal {
        Action::Nothing
    } else {
        match event.kind {
            MouseKind::LeftDown => match spec_hit(event.column, event.row, layout) {
                Some((pane, r)) => Action::FocusAndSelect(pane, r),
                None => Action::Nothing,
            },
            MouseKind::ScrollDown => Action::ScrollIn(spec_pane_at(event.column, event.row, layout), 3),
            MouseKind::ScrollUp => Action::ScrollIn(spec_pane_at(event.column, event.row, layout), -3i32),
            MouseKind::Other => Action::Nothing,
        }
    }
}

/// The first pane whose rect holds the cell.
pub fn pane_at(col: u16, row: u16, layout: &LayoutMap) -> (p: Option<Pane>)
    ensures
        p == spec_pane_at(col, row, *layout),
{
    if layout.messages.contains(col, row) {
        Some(Pane::Messages)
    } else if layout.signals.contains(col, row) {
        Some(Pane::Signals)
    } else if layout.rx.contains(col, row) {
        Some(Pane::Rx)
    } else if layout.cyclic.contains(col, row) {
        Some(Pane::Cyclic)
    } else if layout.rules.contains(col, row) {
        Some(Pane::Rules)
    } else {
        None
    }
}

/// Which pane, and which visible row within it, the pointer is over.
pub fn hit(col: u16, row: u16, layout: &LayoutMap) -> (h: Option<(Pane, usize)>)
    ensures
        h == spec_hit(col, row, *layout),
{
    let pane = match pane_at(col, row, layout) {
        Some(p) => p,
        None => {
            return None;
        },
    };
    let rect = layout.rect_of(pane);
    let first: u32 = rect.y as u32 + pane.header_rows() as u32;
    let end: u32 = rect.y as u32 + rect.height as u32;
    if (row as u32) < first || row as u32 >= end {
        return None;
    }
    Some((pane, (row as u32 - first) as usize))
}

pub fn map(event: MouseEvent, layout: &LayoutMap, mode: &Mode) -> (a: Action)
    ensures
        a == spec_map(event, *layout, !(*mode is Normal)),
{
    if !matches!(mode, Mode::Normal) {
        return Action::Nothing;
    }
    match event.kind {
        MouseKind::LeftDown => match hit(event.column, event.row, layout) {
            Some((pane, r)) => Action::FocusAndSelect(pane, r),
            None => Action::Nothing,
        },
        MouseKind::ScrollDown => Action::ScrollIn(pane_at(event.column, event.row, layout), 3),
        MouseKind::ScrollUp => Action::ScrollIn(pane_at(event.column, event.row, layout), -3),
        MouseKind::Other => Action::Nothing,
    }
}

/// The mouse never does anything destructive: whatever the event, it can
/// only focus and select, scroll, or do nothing.
pub proof fn law_the_mouse_only_navigates(event: MouseEvent, layout: LayoutMap, modal: bool)
    ensures
        spec_map(event, layout, modal) is Nothing || spec_map(event, layout, modal) is FocusAndSelect
            || spec_map(event, layout, modal) is ScrollIn,
        modal ==> spec_map(event, layout, modal) is Nothing,
{
}

} // verus!
