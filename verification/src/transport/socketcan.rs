//! Native SocketCAN: what the tool makes of the kernel's answers.
//!
//! The bitrate is not ours to set here. A `can0` interface is configured with
//! `ip link set can0 up type can bitrate 500000` before the program runs, so we
//! report what the link is actually using rather than pretend to control it.

use vstd::prelude::*;

use super::TransportError;
use crate::fmt::{push_bitrate, spec_fmt_bitrate};
use crate::text::{chars_of, parse_radix_within, push_str, radix_within, string_of};
use crate::app::prompt::{trimmed, trim_text};

verus! {

/// The kind of a failed socket operation, as the system reports it.
#[derive(Clone, Copy, Debug, PartialEq, Eq, Structural)]
pub enum IoKind {
    NotFound,
    PermissionDenied,
    NetworkDown,
    WouldBlock,
    TimedOut,
    Other,
}

/// The error opening `iface` is reported as: a missing interface with the
/// command that brings one up, a refused one as such, anything else in the
/// system's words.
pub fn open_error(kind: IoKind, iface: &str, message: String) -> (e: TransportError)
    ensures
        kind == IoKind::NotFound ==> (e matches TransportError::NotFound(t) && t@ == iface@
            + " does not exist (bring it up: sudo ip link set "@ + iface@ + " up type can bitrate 500000)"@),
        kind == IoKind::PermissionDenied ==> (e matches TransportError::Permission(t) && t@
            == "no permission to open "@ + iface@),
        kind != IoKind::NotFound && kind != IoKind::PermissionDenied ==> e == TransportError::Other(message),
{
    match kind {
        IoKind::NotFound => {
            let mut t: Vec<char> = Vec::new();
            push_str(&mut t, iface);
            push_str(&mut t, " does not exist (bring it up: sudo ip link set ");
            push_str(&mut t, iface);
            push_str(&mut t, " up type can bitrate 500000)");
            TransportError::NotFound(string_of(&t))
        },
        IoKind::PermissionDenied => {
            let mut t: Vec<char> = Vec::new();
            push_str(&mut t, "no permission to open ");
            push_str(&mut t, iface);
            TransportError::Permission(string_of(&t))
        },
        _ => TransportError::Other(message),
    }
}

/// The error a failed send is reported as: a network gone down means the
/// link is lost; anything else is reported in the system's words.
pub fn send_error(kind: IoKind, message: String) -> (e: TransportError)
    ensures
        kind == IoKind::NetworkDown ==> e == TransportError::Disconnected,
        kind != IoKind::NetworkDown ==> e == TransportError::Other(message),
{
    match kind {
        IoKind::NetworkDown => TransportError::Disconnected,
        _ => TransportError::Other(message),
    }
}

/// What a failed read means: a timeout is a quiet bus (`None`), a network
/// gone down is a lost link, anything else is an error in the system's words.
pub fn recv_error(kind: IoKind, message: String) -> (r: Result<(), TransportError>)
    ensures
        (kind == IoKind::WouldBlock || kind == IoKind::TimedOut) ==> r is Ok,
        kind == IoKind::NetworkDown ==> r == Err::<(), TransportError>(TransportError::Disconnected),
        !(kind == IoKind::WouldBlock || kind == IoKind::TimedOut || kind == IoKind::NetworkDown) ==> r
            == Err::<(), TransportError>(TransportError::Other(message)),
{
    match kind {
        IoKind::WouldBlock | IoKind::TimedOut => Ok(()),
        IoKind::NetworkDown => Err(TransportError::Disconnected),
        _ => Err(TransportError::Other(message)),
    }
}

/// The header's line for an interface: its name, and the bitrate it runs at
/// when the kernel says.
pub fn describe(iface: &str, bitrate: Option<u32>) -> (s: String)
    ensures
        s@ == "socketcan "@ + iface@ + match bitrate {
            Some(b) => " @ "@ + spec_fmt_bitrate(b),
            None => Seq::empty(),
        },
{
    let mut t: Vec<char> = Vec::new();
    push_str(&mut t, "socketcan ");
    push_str(&mut t, iface);
    if let Some(b) = bitrate {
        push_str(&mut t, " @ ");
        push_bitrate(&mut t, b);
    }
    proof {
        assert(t@ =~= "socketcan "@ + iface@ + match bitrate {
            Some(b) => " @ "@ + spec_fmt_bitrate(b),
            None => Seq::empty(),
        });
    }
    string_of(&t)
}

/// The bitrate the kernel's `can_bittiming/bitrate` file gives: its text,
/// without surrounding white space, as a decimal number that fits 32 bits.
pub fn parse_bitrate(text: &str) -> (r: Option<u32>)
    ensures
        r == match radix_within(trimmed(text@), 10, u32::MAX as nat) {
            Some(n) => Some(n as u32),
            None => None,
        },
{
    let t = chars_of(trim_text(text).as_str());
    proof {
        assert(t@.subrange(0, t@.len() as int) =~= t@);
    }
    match parse_radix_within(&t, 0, 10, u32::MAX as u64) {
        Some(n) => Some(n as u32),
        None => None,
    }
}

/// The state the kernel's `operstate` file gives, without surrounding white
/// space, or `unknown` when it could not be read.
pub fn state_text(read: Option<String>) -> (s: String)
    ensures
        s@ == match read {
            Some(t) => trimmed(t@),
            None => "unknown"@,
        },
{
    match read {
        Some(t) => trim_text(t.as_str()),
        None => String::from_str("unknown"),
    }
}

} // verus!
