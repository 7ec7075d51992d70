//! Arguments. Every one is optional: with none, the tool discovers what is
//! plugged in and asks.

use vstd::prelude::*;

verus! {

pub struct Cli {
    /// DBC file to load. Without it, tuican offers the ones it finds here.
    pub dbc: Option<String>,
    /// Reaction rules to load. Without it, tuican looks for
    /// `tuican.rules.toml` beside the DBC and in the working directory.
    pub rules: Option<String>,
    /// Adapter to use: gs_usb, socketcan, slcan, or virtual.
    pub interface: Option<String>,
    /// Channel for the chosen adapter: `can0`, or a serial port for slcan.
    pub channel: Option<String>,
    pub bitrate: Option<u32>,
    /// Reconnect to the last session and skip both pickers.
    pub last: bool,
    /// Print the udev rule that fixes permission errors on Linux, then exit.
    pub print_udev_rule: bool,
}

} // verus!
