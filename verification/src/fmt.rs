//! Human-readable numbers for the header and the pickers.

use vstd::prelude::*;

use crate::text::{decimal, push_decimal, push_str, string_of};

verus! {

/// `1 Mbit/s`, `500 kbit/s`, `33333 bit/s`: the largest unit that divides
/// the rate exactly.
pub open spec fn spec_fmt_bitrate(bps: u32) -> Seq<char> {
    if bps % 1_000_000 == 0 {
        decimal((bps / 1_000_000) as nat) + " Mbit/s"@
    } else if bps % 1_000 == 0 {
        decimal((bps / 1_000) as nat) + " kbit/s"@
    } else {
        decimal(bps as nat) + " bit/s"@
    }
}

pub fn push_bitrate(out: &mut Vec<char>, bps: u32)
    ensures
        final(out)@ == old(out)@ + spec_fmt_bitrate(bps),
{
    if bps % 1_000_000 == 0 {
        push_decimal(out, (bps / 1_000_000) as u64);
        push_str(out, " Mbit/s");
    } else if bps % 1_000 == 0 {
        push_decimal(out, (bps / 1_000) as u64);
        push_str(out, " kbit/s");
    } else {
        push_decimal(out, bps as u64);
        push_str(out, " bit/s");
    }
    assert(final(out)@ =~= old(out)@ + spec_fmt_bitrate(bps));
}

/// `1 Mbit/s`, `500 kbit/s`: used in the header and every picker row.
pub fn fmt_bitrate(bps: u32) -> (s: String)
    ensures
        s@ == spec_fmt_bitrate(bps),
{
    let mut out: Vec<char> = Vec::new();
    push_bitrate(&mut out, bps);
    assert(out@ =~= spec_fmt_bitrate(bps));
    string_of(&out)
}

} // verus!
