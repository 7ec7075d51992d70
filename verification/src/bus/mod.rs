//! What the bus thread decides: the periodic-send table, when to wake, and
//! how a dropped link is retried. The thread itself, the channels and the
//! adapter live with the caller.

pub mod cyclic;
pub mod link;

use vstd::prelude::*;

verus! {

/// Traffic counters the bus reports to the UI.
#[derive(Clone, Debug)]
pub struct Stats {
    pub tx: u64,
    pub tx_errors: u64,
    /// Frames the adapter handed back to us as our own. Counted, not shown as traffic.
    pub tx_echo: u64,
    pub rx: u64,
    /// Message name → frames sent, for the cyclic strip.
    pub cyclic: Vec<(String, u64)>,
}

impl Default for Stats {
    fn default() -> (s: Self)
        ensures
            s.tx == 0 && s.tx_errors == 0 && s.tx_echo == 0 && s.rx == 0 && s.cyclic@.len() == 0,
    {
        Stats { tx: 0, tx_errors: 0, tx_echo: 0, rx: 0, cyclic: Vec::new() }
    }
}

} // verus!
