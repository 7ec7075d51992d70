//! The overlay that shows one row in full.
//!
//! Panes are single-line and column-aligned, so a decoded message or a rule
//! wider than the terminal gets cut at the right edge. This is where the whole
//! thing can be read, wrapped over as many lines as it needs.

use vstd::prelude::*;

use super::action::Action;
use crate::rules::Rule;

verus! {

pub enum DetailRow {
    /// The subject of the overlay, shown once at the top.
    Heading(String),
    /// A label and its value, wrapped with a hanging indent.
    Pair(String, String),
    /// A full-width line, wrapped.
    Text(String),
    Blank,
}

pub struct Detail {
    pub title: String,
    pub rows: Vec<DetailRow>,
    pub scroll: usize,
}

/// `scroll + step`, held within `0..=usize::MAX`.
pub open spec fn scrolled(scroll: usize, step: int) -> usize {
    if scroll + step < 0 {
        0
    } else if scroll + step > usize::MAX {
        usize::MAX
    } else {
        (scroll + step) as usize
    }
}

/// The overlay's scroll after an action, or `None` when the action closes it:
/// moves scroll by a row, pages by ten rows, Home and End go to the ends, and
/// anything else closes the overlay, so it never traps the keyboard.
pub open spec fn spec_detail_scroll(scroll: usize, action: Action) -> Option<usize> {
    match action {
        Action::Move(step) => Some(scrolled(scroll, step as int)),
        Action::Page(step) => Some(scrolled(scroll, step * 10)),
        Action::HalfPage(step) => Some(scrolled(scroll, step * 10)),
        Action::Home => Some(0),
        Action::End => Some(usize::MAX),
        _ => None,
    }
}

fn scroll_by(scroll: usize, step: i64) -> (r: usize)
    ensures
        r == scrolled(scroll, step as int),
{
    if step >= 0 {
        let up = step as u64;
        if up as u128 > (usize::MAX - scroll) as u128 {
            usize::MAX
        } else {
            scroll + up as usize
        }
    } else {
        let down: u128 = (0i128 - step as i128) as u128;
        if down > scroll as u128 {
            0
        } else {
            scroll - down as usize
        }
    }
}

impl Detail {
    /// An overlay at the top of its rows.
    pub fn new(title: String, rows: Vec<DetailRow>) -> (d: Self)
        ensures
            d.title == title,
            d.rows == rows,
            d.scroll == 0,
    {
        Detail { title, rows, scroll: 0 }
    }

    /// Apply an action to the open overlay. Returns whether it stays open.
    pub fn on_action(&mut self, action: &Action) -> (open: bool)
        ensures
            open == (spec_detail_scroll(old(self).scroll, *action) is Some),
            open ==> final(self).scroll == spec_detail_scroll(old(self).scroll, *action)->0,
            !open ==> final(self).scroll == old(self).scroll,
            final(self).title == old(self).title,
            final(self).rows == old(self).rows,
    {
        match action {
            Action::Move(step) => {
                self.scroll = scroll_by(self.scroll, *step as i64);
                true
            },
            Action::Page(step) | Action::HalfPage(step) => {
                self.scroll = scroll_by(self.scroll, *step as i64 * 10);
                true
            },
            Action::Home => {
                self.scroll = 0;
                true
            },
            Action::End => {
                self.scroll = usize::MAX;
                true
            },
            _ => false,
        }
    }
}

/// How the overlay describes a rule's state.
pub open spec fn spec_rule_state<C, A>(rule: Rule<C, A>) -> Seq<char> {
    if rule.warning is Some {
        "needs attention"@
    } else if !rule.enabled {
        "disabled"@
    } else if rule.holding {
        "condition currently true, waiting for it to fall"@
    } else {
        "armed"@
    }
}

/// A rule's state in words: a loader warning first, then whether it is off,
/// waiting for its condition to fall, or armed.
pub fn rule_state<C, A>(rule: &Rule<C, A>) -> (s: &'static str)
    ensures
        s@ == spec_rule_state(*rule),
{
    if rule.warning.is_some() {
        "needs attention"
    } else if !rule.enabled {
        "disabled"
    } else if rule.holding {
        "condition currently true, waiting for it to fall"
    } else {
        "armed"
    }
}

} // verus!
