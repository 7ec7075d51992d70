//! CAN identifiers.
//!
//! "Standard or extended" is part of the type rather than a `bool` that gets
//! passed around separately: an [`Id`] can only be built with a value that fits
//! its kind, 11 bits or 29.

use vstd::prelude::*;

use crate::text::{hex_fixed, push_hex_fixed, string_of};

verus! {

/// Bit 31 marks an extended identifier. This is the convention DBC files
/// themselves use in `BO_` lines, so it doubles as our map key.
pub const EXTENDED_FLAG: u32 = 0x8000_0000;

/// The largest standard (11-bit) identifier.
pub const STANDARD_MAX: u32 = 0x7FF;

/// The largest extended (29-bit) identifier.
pub const EXTENDED_MAX: u32 = 0x1FFF_FFFF;

/// A CAN identifier: standard (11 bits) or extended (29 bits).
#[derive(Clone, Copy, Debug, PartialEq, Eq, Structural)]
pub struct Id {
    raw: u32,
    extended: bool,
}

impl Id {
    #[verifier::type_invariant]
    spec fn fits(self) -> bool {
        if self.extended {
            self.raw <= EXTENDED_MAX
        } else {
            self.raw <= STANDARD_MAX
        }
    }

    /// The identifier's numeric value, without any kind flag.
    pub closed spec fn value(self) -> u32 {
        self.raw
    }

    /// Whether this is a 29-bit identifier.
    pub closed spec fn is_ext(self) -> bool {
        self.extended
    }
}

/// The map key of an identifier: the value, with bit 31 set when extended.
pub open spec fn spec_key(id: Id) -> u32 {
    if id.is_ext() {
        (id.value() + EXTENDED_FLAG) as u32
    } else {
        id.value()
    }
}

/// What `Id` the pair `(raw, extended)` denotes: extended when asked for or
/// when the value does not fit 11 bits, keeping the low 29 bits.
pub open spec fn spec_make(raw: u32, extended: bool) -> (u32, bool) {
    if extended || raw > STANDARD_MAX {
        ((raw & EXTENDED_MAX) as u32, true)
    } else {
        (raw, false)
    }
}

pub fn raw(id: Id) -> (r: u32)
    ensures
        r == id.value(),
        id.is_ext() ==> r <= EXTENDED_MAX,
        !id.is_ext() ==> r <= STANDARD_MAX,
{
    proof {
        use_type_invariant(&id);
    }
    id.raw
}

pub fn is_extended(id: Id) -> (r: bool)
    ensures
        r == id.is_ext(),
{
    id.extended
}

/// A key that cannot confuse standard `0x123` with extended `0x123`.
pub fn key(id: Id) -> (k: u32)
    ensures
        k == spec_key(id),
        k == (id.value() | if id.is_ext() { EXTENDED_FLAG } else { 0 }),
{
    proof {
        use_type_invariant(&id);
    }
    let r = id.raw;
    if id.extended {
        assert(r <= 0x1FFF_FFFF ==> (r | 0x8000_0000u32) == r + 0x8000_0000u32) by (bit_vector);
        r | EXTENDED_FLAG
    } else {
        assert((r | 0u32) == r) by (bit_vector);
        r
    }
}

/// Distinct identifiers have distinct keys: a key cannot confuse standard
/// `0x123` with extended `0x123`.
pub proof fn law_keys_tell_identifiers_apart(a: Id, b: Id)
    requires
        a.is_ext() ==> a.value() <= EXTENDED_MAX,
        !a.is_ext() ==> a.value() <= STANDARD_MAX,
        b.is_ext() ==> b.value() <= EXTENDED_MAX,
        !b.is_ext() ==> b.value() <= STANDARD_MAX,
        spec_key(a) == spec_key(b),
    ensures
        a.value() == b.value(),
        a.is_ext() == b.is_ext(),
{
}

/// Build an `Id`, falling back to extended when the value cannot be standard.
pub fn make(raw: u32, extended: bool) -> (r: Option<Id>)
    ensures
        r is Some,
        r->0.value() == spec_make(raw, extended).0,
        r->0.is_ext() == spec_make(raw, extended).1,
{
    if extended || raw > STANDARD_MAX {
        let v = raw & EXTENDED_MAX;
        assert((raw & 0x1FFF_FFFFu32) <= 0x1FFF_FFFFu32) by (bit_vector);
        Some(Id { raw: v, extended: true })
    } else {
        Some(Id { raw, extended: false })
    }
}

/// The text [`display`] renders: `0x`, then three hex digits for a standard
/// identifier or eight for an extended one.
pub open spec fn spec_display(id: Id) -> Seq<char> {
    seq!['0', 'x'] + hex_fixed(id.value() as nat, if id.is_ext() { 8 } else { 3 })
}

/// Render as a DBC-style hex id: three digits for standard, eight for extended.
pub fn display(id: Id) -> (s: String)
    ensures
        s@ == spec_display(id),
{
    let mut out: Vec<char> = Vec::new();
    out.push('0');
    out.push('x');
    let width: usize = if id.extended { 8 } else { 3 };
    push_hex_fixed(&mut out, id.raw as u64, width);
    string_of(&out)
}

} // verus!
