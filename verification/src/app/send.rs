//! Starting and stopping a periodic send of the message under the cursor.

use vstd::prelude::*;

use super::{Link, Prompt, PromptKind};
use crate::text::{decimal, push_decimal, push_str, string_of};

verus! {

/// What `p` on a message does.
pub enum Toggle {
    /// It is already being sent periodically: stop it.
    Stop,
    /// Nothing to send it on.
    NotConnected,
    /// Ask for the period, offering the one the DBC gives.
    AskPeriod(Prompt),
}

/// The period a message is offered at, in milliseconds: the DBC's cycle time,
/// 100 ms when it gives none.
pub open spec fn offered_period(cycle_time_ms: Option<u32>) -> nat {
    match cycle_time_ms {
        Some(ms) => ms as nat,
        None => 100,
    }
}

/// `p` on the message `name`: a running send stops (whatever the link), a
/// link that is down refuses, and otherwise the period is asked for, with the
/// offered period shown as the default.
pub fn toggle_cyclic(name: &str, running: bool, link: Link, cycle_time_ms: Option<u32>) -> (t: Toggle)
    ensures
        match t {
            Toggle::Stop => running,
            Toggle::NotConnected => !running && link == Link::Down,
            Toggle::AskPeriod(p) => {
                &&& !running && link != Link::Down
                &&& p.kind == PromptKind::Period
                &&& p.label@ == "period ms for "@ + name@ + ":"@
                &&& p.buffer@ == Seq::<char>::empty()
                &&& match p.default {
                    Some(d) => d@ == decimal(offered_period(cycle_time_ms)),
                    None => false,
                }
            },
        },
{
    if running {
        return Toggle::Stop;
    }
    if link == Link::Down {
        return Toggle::NotConnected;
    }
    let mut label: Vec<char> = Vec::new();
    push_str(&mut label, "period ms for ");
    push_str(&mut label, name);
    push_str(&mut label, ":");
    let ms: u32 = match cycle_time_ms {
        Some(ms) => ms,
        None => 100,
    };
    let mut default: Vec<char> = Vec::new();
    push_decimal(&mut default, ms as u64);
    let label = string_of(&label);
    let default = string_of(&default);
    Toggle::AskPeriod(Prompt { kind: PromptKind::Period, label, buffer: String::new(), default: Some(default) })
}

} // verus!
