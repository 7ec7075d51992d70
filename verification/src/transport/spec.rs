//! A description of "how to connect", so the picker, the config file and the
//! command line all speak the same language.

use vstd::prelude::*;

use crate::text::str_eq;

verus! {

/// The bitrates offered in the picker; the first is the default for a fresh
/// install.
pub const COMMON_BITRATES: [u32; 4] = [1_000_000, 500_000, 250_000, 125_000];

#[derive(Clone, Debug, PartialEq, Eq)]
pub enum TransportSpec {
    /// candleLight and friends. `bus`/`address` locate the device; `vid`/`pid`
    /// find it again when it comes back on a different address.
    GsUsb { bus: u8, address: u8, vid: u16, pid: u16, bitrate: u32 },
    /// A Linux SocketCAN interface, configured outside the program.
    SocketCan { iface: String },
    Slcan { port: String, bitrate: u32 },
    Virtual,
}

impl TransportSpec {
    /// Whether the picker should ask for a bitrate before connecting.
    pub fn needs_bitrate(&self) -> (r: bool)
        ensures
            r == (*self is GsUsb || *self is Slcan),
    {
        match self {
            TransportSpec::GsUsb { .. } | TransportSpec::Slcan { .. } => true,
            // set with `ip link`, not by us
            TransportSpec::SocketCan { .. } => false,
            TransportSpec::Virtual => false,
        }
    }

    /// The same connection at another bitrate, where the kind takes one.
    pub open spec fn spec_with_bitrate(self, rate: u32) -> Self {
        match self {
            TransportSpec::GsUsb { bus, address, vid, pid, bitrate } => TransportSpec::GsUsb {
                bus,
                address,
                vid,
                pid,
                bitrate: rate,
            },
            TransportSpec::Slcan { port, bitrate } => TransportSpec::Slcan {
                port,
                bitrate: rate,
            },
            other => other,
        }
    }

    pub fn with_bitrate(self, rate: u32) -> (r: Self)
        ensures
            r == self.spec_with_bitrate(rate),
    {
        match self {
            TransportSpec::GsUsb { bus, address, vid, pid, .. } => TransportSpec::GsUsb {
                bus,
                address,
                vid,
                pid,
                bitrate: rate,
            },
            TransportSpec::Slcan { port, .. } => TransportSpec::Slcan { port, bitrate: rate },
            other => other,
        }
    }

    pub fn bitrate(&self) -> (r: Option<u32>)
        ensures
            r == match *self {
                TransportSpec::GsUsb { bitrate, .. } => Some(bitrate),
                TransportSpec::Slcan { bitrate, .. } => Some(bitrate),
                _ => None,
            },
    {
        match self {
            TransportSpec::GsUsb { bitrate, .. } => Some(*bitrate),
            TransportSpec::Slcan { bitrate, .. } => Some(*bitrate),
            _ => None,
        }
    }

    /// A copy of the description.
    pub fn duplicate(&self) -> (r: Self)
        ensures
            r == *self,
    {
        match self {
            TransportSpec::GsUsb { bus, address, vid, pid, bitrate } => TransportSpec::GsUsb {
                bus: *bus,
                address: *address,
                vid: *vid,
                pid: *pid,
                bitrate: *bitrate,
            },
            TransportSpec::SocketCan { iface } => TransportSpec::SocketCan { iface: iface.clone() },
            TransportSpec::Slcan { port, bitrate } => TransportSpec::Slcan { port: port.clone(), bitrate: *bitrate },
            TransportSpec::Virtual => TransportSpec::Virtual,
        }
    }

    /// Identity ignoring the bitrate: the same bus position for a USB adapter,
    /// the same interface or port name otherwise.
    pub open spec fn spec_same_device(self, other: Self) -> bool {
        match (self, other) {
            (
                TransportSpec::GsUsb { bus: a, address: b, .. },
                TransportSpec::GsUsb { bus: c, address: d, .. },
            ) => a == c && b == d,
            (TransportSpec::SocketCan { iface: a }, TransportSpec::SocketCan { iface: b }) => a@ == b@,
            (TransportSpec::Slcan { port: a, .. }, TransportSpec::Slcan { port: b, .. }) => a@ == b@,
            (TransportSpec::Virtual, TransportSpec::Virtual) => true,
            _ => false,
        }
    }

    /// Identity ignoring the bitrate, for "is this the one I used last time?".
    pub fn same_device(&self, other: &Self) -> (r: bool)
        ensures
            r == self.spec_same_device(*other),
    {
        match (self, other) {
            (
                TransportSpec::GsUsb { bus: a, address: b, .. },
                TransportSpec::GsUsb { bus: c, address: d, .. },
            ) => *a == *c && *b == *d,
            (TransportSpec::SocketCan { iface: a }, TransportSpec::SocketCan { iface: b }) => str_eq(
                a.as_str(),
                b.as_str(),
            ),
            (TransportSpec::Slcan { port: a, .. }, TransportSpec::Slcan { port: b, .. }) => str_eq(
                a.as_str(),
                b.as_str(),
            ),
            (TransportSpec::Virtual, TransportSpec::Virtual) => true,
            _ => false,
        }
    }
}

} // verus!
