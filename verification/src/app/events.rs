//! What the screen makes of the bus thread's news about the link.

use vstd::prelude::*;

use super::Link;
use crate::text::{decimal, push_decimal, push_str, string_of};

verus! {

/// The bus thread's news about the link.
#[derive(Clone, Debug)]
pub enum LinkEvent {
    /// Opened; `resumed` when it is the link coming back by itself, with its
    /// periodic sends still running.
    Connected { who: String, resumed: bool },
    ConnectFailed(String),
    /// Lost; `retrying` while the bus reopens it on its own.
    Disconnected { retrying: bool },
    /// A retry that did not succeed.
    Reconnecting { attempt: u32 },
}

/// What to do about the last error shown.
#[derive(Clone, Debug)]
pub enum ErrorNote {
    Keep,
    Clear,
    Show(String),
}

/// How the screen changes on link news.
#[derive(Clone, Debug)]
pub struct LinkChange {
    pub link: Link,
    /// The header's words for the link.
    pub label: String,
    /// The status line.
    pub status: String,
    pub error: ErrorNote,
    /// Whether the periodic sends shown are gone: a fresh connection starts
    /// without any, and so does a link given up on.
    pub clear_cyclic: bool,
}

/// The change as (link, label, status, error: 0 keep / 1 clear / 2 show with
/// its text, whether the periodic sends are cleared).
pub open spec fn spec_link_change(e: LinkEvent) -> (Link, Seq<char>, Seq<char>, (int, Seq<char>), bool) {
    match e {
        LinkEvent::Connected { who, resumed } => (
            Link::Up,
            who@,
            if resumed {
                "link restored: "@ + who@
            } else {
                "connected to "@ + who@
            },
            (1, Seq::empty()),
            !resumed,
        ),
        LinkEvent::ConnectFailed(msg) => (Link::Down, "not connected"@, msg@, (2, msg@), false),
        LinkEvent::Disconnected { retrying } => if retrying {
            (
                Link::Retrying,
                "link lost, reconnecting"@,
                "link lost, retrying. Periodic sends held"@,
                (0, Seq::empty()),
                false,
            )
        } else {
            (Link::Down, "not connected"@, "disconnected"@, (0, Seq::empty()), true)
        },
        LinkEvent::Reconnecting { attempt } => (
            Link::Retrying,
            "link lost, reconnecting"@,
            "reconnecting… (attempt "@ + decimal(attempt as nat) + ")"@,
            (0, Seq::empty()),
            false,
        ),
    }
}

pub open spec fn note_view(n: ErrorNote) -> (int, Seq<char>) {
    match n {
        ErrorNote::Keep => (0, Seq::empty()),
        ErrorNote::Clear => (1, Seq::empty()),
        ErrorNote::Show(t) => (2, t@),
    }
}

fn text(s: &str) -> (r: String)
    ensures
        r@ == s@,
{
    String::from_str(s)
}

/// How the screen changes on link news (see [`spec_link_change`]).
pub fn link_change(e: LinkEvent) -> (c: LinkChange)
    ensures
        (c.link, c.label@, c.status@, note_view(c.error), c.clear_cyclic) == spec_link_change(e),
{
    match e {
        LinkEvent::Connected { who, resumed } => {
            let mut t: Vec<char> = Vec::new();
            if resumed {
                push_str(&mut t, "link restored: ");
            } else {
                push_str(&mut t, "connected to ");
            }
            push_str(&mut t, who.as_str());
            LinkChange { link: Link::Up, label: who, status: string_of(&t), error: ErrorNote::Clear, clear_cyclic: !resumed }
        },
        LinkEvent::ConnectFailed(msg) => {
            let shown = msg.clone();
            LinkChange {
                link: Link::Down,
                label: text("not connected"),
                status: msg,
                error: ErrorNote::Show(shown),
                clear_cyclic: false,
            }
        },
        LinkEvent::Disconnected { retrying } => if retrying {
            LinkChange {
                link: Link::Retrying,
                label: text("link lost, reconnecting"),
                status: text("link lost, retrying. Periodic sends held"),
                error: ErrorNote::Keep,
                clear_cyclic: false,
            }
        } else {
            LinkChange {
                link: Link::Down,
                label: text("not connected"),
                status: text("disconnected"),
                error: ErrorNote::Keep,
                clear_cyclic: true,
            }
        },
        LinkEvent::Reconnecting { attempt } => {
            let mut t: Vec<char> = Vec::new();
            push_str(&mut t, "reconnecting… (attempt ");
            push_decimal(&mut t, attempt as u64);
            push_str(&mut t, ")");
            LinkChange {
                link: Link::Retrying,
                label: text("link lost, reconnecting"),
                status: string_of(&t),
                error: ErrorNote::Keep,
                clear_cyclic: false,
            }
        },
    }
}

/// Periodic sends shown on screen survive a link that comes back by itself,
/// and are dropped when the link is given up on or replaced.
pub proof fn law_resumed_links_keep_their_sends(who: String)
    ensures
        !spec_link_change(LinkEvent::Connected { who, resumed: true }).4,
        spec_link_change(LinkEvent::Connected { who, resumed: false }).4,
        !spec_link_change(LinkEvent::Disconnected { retrying: true }).4,
        spec_link_change(LinkEvent::Disconnected { retrying: false }).4,
{
}

} // verus!
