//! Remembers the last session, so the second launch is `tuican` and two Enters.
//!
//! Reading and writing the file is the caller's; this is what the file holds.

use vstd::prelude::*;

use crate::paths::canonical;
use crate::transport::spec::TransportSpec;

verus! {

pub struct Config {
    pub interface: Option<TransportSpec>,
    pub bitrate: u32,
    pub dbc: Option<String>,
    pub rules: Option<String>,
    pub mouse: bool,
}

impl Default for Config {
    /// No interface or files remembered, 500 kbit/s, mouse on.
    fn default() -> (c: Self)
        ensures
            c.interface is None && c.bitrate == 500_000 && c.dbc is None && c.rules is None && c.mouse,
    {
        Config { interface: None, bitrate: 500_000, dbc: None, rules: None, mouse: true }
    }
}

impl Config {
    /// Remember a DBC by the absolute path the file system resolved it to; a
    /// path that resolved to nothing is not remembered, and the DBC remembered
    /// before stays.
    pub fn remember_resolved(&mut self, resolved: Option<String>)
        ensures
            final(self).dbc == match resolved {
                Some(c) => Some(c),
                None => old(self).dbc,
            },
            final(self).interface == old(self).interface,
            final(self).bitrate == old(self).bitrate,
            final(self).rules == old(self).rules,
            final(self).mouse == old(self).mouse,
    {
        match resolved {
            Some(c) => self.dbc = Some(c),
            None => {},
        }
    }

    /// Only remember a DBC we can actually still find next time: by the
    /// absolute path the file system resolves it to, when it resolves to one
    /// (see [`Config::remember_resolved`]). What it resolves to is up to the
    /// disk; whatever it is, nothing but the DBC changes, and a DBC that is
    /// remembered anew is one the file system resolved.
    pub fn remember_dbc(&mut self, path: &str)
        ensures
            final(self).dbc == old(self).dbc || final(self).dbc is Some,
            final(self).interface == old(self).interface,
            final(self).bitrate == old(self).bitrate,
            final(self).rules == old(self).rules,
            final(self).mouse == old(self).mouse,
    {
        let resolved = canonical(path);
        self.remember_resolved(resolved);
    }
}

} // verus!
