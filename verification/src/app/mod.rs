//! The state behind the screen and the rules that change it: panes, cursors,
//! scrolling, counts, the detail overlay and the typed commands. What the
//! state is drawn from (the DBC, the receive table, the transmit values) lives
//! with the caller, which hands in the sizes these rules need.

pub mod action;
pub mod detail;
pub mod dispatch;
pub mod events;
pub mod messages;
pub mod nav;
pub mod picker;
pub mod prompt;
pub mod received;
pub mod send;

use vstd::prelude::*;

use crate::transport::spec::TransportSpec;
pub use detail::{Detail, DetailRow};

verus! {

#[derive(Clone, Copy, PartialEq, Eq, Debug, Structural)]
pub enum PromptKind {
    Filter,
    SignalValue,
    Period,
    RawSend,
}

pub struct Prompt {
    pub kind: PromptKind,
    pub label: String,
    pub buffer: String,
    /// Shown greyed until the user types, and used when they submit an empty
    /// line. A default must never be pre-filled into `buffer`: typing would
    /// append to it, so `250` over a default of `100` would mean 100250.
    pub default: Option<String>,
}

pub struct PickerRow {
    pub label: String,
    pub detail: String,
}

pub enum PickerKind {
    Interface(Vec<TransportSpec>),
    /// A chosen adapter waiting on a bitrate before we open it.
    Bitrate(TransportSpec),
    /// DBC files, by path.
    Dbc(Vec<String>),
}

pub struct Picker {
    pub title: String,
    pub rows: Vec<PickerRow>,
    pub index: usize,
    pub kind: PickerKind,
    /// True for the pickers shown on launch, where Esc needs to explain how to
    /// get back to them rather than leave the user staring at an empty screen.
    pub startup: bool,
    /// Set on the launch DBC picker when the interface still needs choosing,
    /// so the two chain. Clear when `--interface` already settled it.
    pub then_interface: bool,
}

pub enum Mode {
    Normal,
    Prompt(Prompt),
    Picker(Picker),
    /// One row shown in full, for when a pane had to cut it short.
    Detail(Detail),
    Help,
}

/// A pane's scroll offset.
///
/// While `follow` is set the view tracks the cursor on every frame. A wheel
/// event clears it so the user can look around without losing their place, and
/// the next keyboard move sets it again.
#[derive(Clone, Copy, Debug, PartialEq, Eq, Structural)]
pub struct Scroll {
    pub offset: usize,
    pub follow: bool,
}

impl Default for Scroll {
    fn default() -> (s: Self)
        ensures
            s == (Scroll { offset: 0, follow: false }),
    {
        Scroll { offset: 0, follow: false }
    }
}

impl Scroll {
    /// Scroll by hand: move the view and stop following the cursor.
    pub fn to(&mut self, offset: usize)
        ensures
            *final(self) == (Scroll { offset, follow: false }),
    {
        self.offset = offset;
        self.follow = false;
    }
}

/// A half-typed key sequence. Only `gg` needs one today.
#[derive(Clone, Copy, PartialEq, Eq, Debug, Structural)]
pub enum Pending {
    /// No sequence under way.
    Nothing,
    G,
}

impl Default for Pending {
    fn default() -> (p: Self)
        ensures
            p == Pending::Nothing,
    {
        Pending::Nothing
    }
}

#[derive(Clone, Copy, PartialEq, Eq, Debug, Structural)]
pub enum Link {
    Down,
    /// Dropped, and the bus is reopening it on its own.
    Retrying,
    Up,
}

} // verus!
