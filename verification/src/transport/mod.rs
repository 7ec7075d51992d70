//! Adapters' data: the frames that cross a wire, and the wire formats of the
//! adapters that speak a byte protocol. Nothing here knows what a DBC is, and
//! nothing here touches a device: opening one and moving bytes is the caller's.

pub mod discover;
pub mod gs_usb;
pub mod slcan;
pub mod socketcan;
pub mod spec;

use vstd::prelude::*;

use crate::canid::Id;
use crate::text::{hex_fixed, push_decimal, push_hex_fixed, push_str, string_of};

pub use spec::TransportSpec;

verus! {

/// The most a payload carries: 64 bytes, so classic and FD frames share one
/// type and the receive path allocates nothing.
pub const PAYLOAD_MAX: usize = 64;

/// A CAN payload, inline.
#[derive(Clone, Copy, Debug, PartialEq, Eq)]
pub struct Payload {
    bytes: [u8; 64],
    len: u8,
}

impl View for Payload {
    type V = Seq<u8>;

    closed spec fn view(&self) -> Seq<u8> {
        self.bytes@.subrange(0, self.len as int)
    }
}

/// Payload bytes as hex pairs separated by single spaces: `11 22 33`.
pub open spec fn hex_bytes(s: Seq<u8>) -> Seq<char>
    decreases s.len(),
{
    if s.len() == 0 {
        Seq::empty()
    } else if s.len() == 1 {
        hex_fixed(s[0] as nat, 2)
    } else {
        hex_bytes(s.drop_last()) + seq![' '] + hex_fixed(s.last() as nat, 2)
    }
}

impl Payload {
    pub const MAX: usize = 64;

    #[verifier::type_invariant]
    spec fn fits(self) -> bool {
        self.len <= 64 && self.zero_past_len()
    }

    /// The payload holds at most 64 bytes, and every byte past its length is
    /// 0.
    pub closed spec fn zero_past_len(self) -> bool {
        &&& self.len <= 64
        &&& forall|j: int| self.len <= j < 64 ==> self.bytes@[j] == 0
    }

    /// A payload holding the first 64 bytes of `src` (all of it, when shorter).
    pub fn new(src: &[u8]) -> (p: Self)
        ensures
            p@ == if src@.len() <= 64 {
                src@
            } else {
                src@.subrange(0, 64)
            },
            p.zero_past_len(),
    {
        let n: usize = if src.len() < 64 {
            src.len()
        } else {
            64
        };
        let mut bytes = [0u8; 64];
        assert(forall|j: int| 0 <= j < 64 ==> bytes@[j] == 0);
        let mut i: usize = 0;
        while i < n
            invariant
                0 <= i <= n,
                n <= 64,
                n <= src@.len(),
                bytes@.len() == 64,
                forall|j: int| 0 <= j < i ==> bytes@[j] == src@[j],
                forall|j: int| n <= j < 64 ==> bytes@[j] == 0,
            decreases n - i,
        {
            bytes.set(i, src[i]);
            i = i + 1;
        }
        let p = Payload { bytes, len: n as u8 };
        assert(p@ =~= if src@.len() <= 64 {
            src@
        } else {
            src@.subrange(0, 64)
        });
        p
    }

    /// How many bytes the payload holds.
    pub fn len(&self) -> (n: usize)
        ensures
            n == self@.len(),
            n <= 64,
    {
        proof {
            use_type_invariant(self);
        }
        self.len as usize
    }

    pub fn is_empty(&self) -> (r: bool)
        ensures
            r == (self@.len() == 0),
    {
        proof {
            use_type_invariant(self);
        }
        self.len == 0
    }

    /// The byte at `i`.
    pub fn get(&self, i: usize) -> (b: u8)
        requires
            i < self@.len(),
        ensures
            b == self@[i as int],
    {
        proof {
            use_type_invariant(self);
        }
        self.bytes[i]
    }

    /// The bytes, as a slice.
    pub fn as_slice(&self) -> (s: &[u8])
        ensures
            s@ == self@,
    {
        proof {
            use_type_invariant(self);
        }
        let all: &[u8] = self.bytes.as_slice();
        vstd::slice::slice_subrange(all, 0, self.len as usize)
    }

    /// The bytes, as a vector.
    pub fn to_vec(&self) -> (v: Vec<u8>)
        ensures
            v@ == self@,
    {
        proof {
            use_type_invariant(self);
        }
        let n = self.len as usize;
        let mut v: Vec<u8> = Vec::new();
        let mut i: usize = 0;
        while i < n
            invariant
                0 <= i <= n,
                n == self@.len(),
                n <= 64,
                self@ == self.bytes@.subrange(0, n as int),
                v@ == self@.subrange(0, i as int),
            decreases n - i,
        {
            v.push(self.bytes[i]);
            i = i + 1;
            assert(v@ =~= self@.subrange(0, i as int));
        }
        assert(self@.subrange(0, n as int) =~= self@);
        v
    }

    /// The bytes in hex, space separated: `11 22 33`.
    pub fn hex(&self) -> (s: String)
        ensures
            s@ == hex_bytes(self@),
    {
        proof {
            use_type_invariant(self);
        }
        let n = self.len as usize;
        let mut out: Vec<char> = Vec::new();
        let mut i: usize = 0;
        while i < n
            invariant
                0 <= i <= n,
                n == self@.len(),
                n <= 64,
                self@ == self.bytes@.subrange(0, n as int),
                out@ == hex_bytes(self@.subrange(0, i as int)),
            decreases n - i,
        {
            if i > 0 {
                out.push(' ');
            }
            push_hex_fixed(&mut out, self.bytes[i] as u64, 2);
            i = i + 1;
            proof {
                let s = self@.subrange(0, i as int);
                assert(s.drop_last() =~= self@.subrange(0, (i - 1) as int));
                if i == 1 {
                    assert(out@ =~= hex_bytes(s));
                } else {
                    assert(out@ =~= hex_bytes(s));
                }
            }
        }
        assert(self@.subrange(0, n as int) =~= self@);
        string_of(&out)
    }
}

/// A payload is its bytes: two payloads, each with nothing past its length,
/// that hold the same bytes are the same payload (so rebuilding one from its
/// own bytes gives it back).
pub proof fn law_a_payload_is_its_bytes(a: Payload, b: Payload)
    requires
        a.zero_past_len(),
        b.zero_past_len(),
        a@ == b@,
    ensures
        a == b,
{
    broadcast use vstd::array::group_array_axioms;

    assert(a@ == a.bytes@.subrange(0, a.len as int));
    assert(b@ == b.bytes@.subrange(0, b.len as int));
    assert(a.len == b.len);
    assert(a.bytes@ =~= b.bytes@) by {
        assert forall|j: int| 0 <= j < 64 implies a.bytes@[j] == b.bytes@[j] by {
            if j < a.len {
                assert(a@[j] == a.bytes@[j]);
                assert(b@[j] == b.bytes@[j]);
                assert(a@[j] == b@[j]);
            } else {
                assert(a.bytes@[j] == 0 && b.bytes@[j] == 0);
            }
        }
    }
    assert(a.bytes == b.bytes);
}

impl std::ops::Deref for Payload {
    type Target = [u8];

    fn deref(&self) -> (s: &[u8])
        ensures
            s@ == self@,
    {
        self.as_slice()
    }
}

#[derive(Clone, Copy, Debug)]
pub struct Frame {
    pub id: Id,
    pub data: Payload,
    /// The adapter handing us back a frame *we* transmitted.
    ///
    /// gs_usb does this for every send. Without the distinction, everything you
    /// transmit shows up in the receive table as though the bus had answered.
    pub echo: bool,
}

#[derive(Clone, Debug, PartialEq, Eq)]
pub enum TransportError {
    NotFound(String),
    /// Carries the remedy, not just the errno.
    Permission(String),
    Bitrate(u32),
    Disconnected,
    Other(String),
}

/// The text of each error, as the status line shows it.
pub open spec fn spec_error_text(e: TransportError) -> Seq<char> {
    match e {
        TransportError::NotFound(s) => "device not found: "@ + s@,
        TransportError::Permission(s) => s@,
        TransportError::Bitrate(b) => "this adapter cannot do "@ + crate::text::decimal(b as nat)
            + " bit/s"@,
        TransportError::Disconnected => "link is down"@,
        TransportError::Other(s) => s@,
    }
}

impl TransportError {
    /// Whether the error means the adapter is gone, so the link must be
    /// reopened rather than the operation retried.
    pub fn is_fatal(&self) -> (r: bool)
        ensures
            r == (*self is Disconnected),
    {
        matches!(self, TransportError::Disconnected)
    }

    /// The message shown for the error.
    pub fn message(&self) -> (s: String)
        ensures
            s@ == spec_error_text(*self),
    {
        let mut out: Vec<char> = Vec::new();
        match self {
            TransportError::NotFound(s) => {
                push_str(&mut out, "device not found: ");
                push_str(&mut out, s.as_str());
            },
            TransportError::Permission(s) => {
                push_str(&mut out, s.as_str());
            },
            TransportError::Bitrate(b) => {
                push_str(&mut out, "this adapter cannot do ");
                push_decimal(&mut out, *b as u64);
                push_str(&mut out, " bit/s");
            },
            TransportError::Disconnected => {
                push_str(&mut out, "link is down");
            },
            TransportError::Other(s) => {
                push_str(&mut out, s.as_str());
            },
        }
        proof {
            assert(out@ =~= spec_error_text(*self));
        }
        string_of(&out)
    }
}

} // verus!
