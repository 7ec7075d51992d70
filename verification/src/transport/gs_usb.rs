//! The gs_usb / candleLight wire format, and the bit-timing solver.
//!
//! Protocol per the mainline `gs_usb` driver and the candleLight firmware. The
//! USB transfers themselves are made by the caller; this module builds and
//! reads the bytes that go through them.

use vstd::prelude::*;

use crate::canid::{self, Id};
use crate::text::{hex_fixed, push_hex_fixed, push_str, string_of};
use super::{Frame, Payload, TransportError};

verus! {

pub const BREQ_HOST_FORMAT: u8 = 0;
pub const BREQ_BITTIMING: u8 = 1;
pub const BREQ_MODE: u8 = 2;
pub const BREQ_BT_CONST: u8 = 4;

/// host->device, vendor, interface
pub const RT_OUT: u8 = 0x41;
/// device->host, vendor, interface
pub const RT_IN: u8 = 0xC1;

pub const MODE_RESET: u32 = 0;
pub const MODE_START: u32 = 1;

pub const EP_IN: u8 = 0x81;
pub const EP_OUT: u8 = 0x02;

/// Byte-order probe the firmware expects.
pub const HOST_MAGIC: u32 = 0x0000_BEEF;
/// `echo_id` of a genuinely received frame.
pub const ECHO_NONE: u32 = 0xFFFF_FFFF;
pub const HOST_FRAME_LEN: usize = 20;
pub const CAN_EFF_FLAG: u32 = 0x8000_0000;
pub const CAN_RTR_FLAG: u32 = 0x4000_0000;
pub const CAN_ERR_FLAG: u32 = 0x2000_0000;

/// The largest bit-rate error accepted, in parts per billion (0.5%): a bus at
/// a larger error will not stay up.
pub const MAX_RATE_ERROR_PPB: u64 = 5_000_000;

/// Adapters that speak gs_usb, for the interface picker: vendor id, product
/// id, name.
pub const KNOWN_COUNT: usize = 5;

pub open spec fn known(i: int) -> (u16, u16, &'static str) {
    if i == 0 {
        (0x1D50u16, 0x606Fu16, "candleLight")
    } else if i == 1 {
        (0x1209u16, 0x2323u16, "CANable")
    } else if i == 2 {
        (0x1CD2u16, 0x606Fu16, "CANable2")
    } else if i == 3 {
        (0x16D0u16, 0x117Eu16, "CES CANext")
    } else {
        (0x1D50u16, 0x60A1u16, "cannectivity")
    }
}

/// The entry `i` of the table of known adapters.
pub fn known_entry(i: usize) -> (r: (u16, u16, &'static str))
    requires
        i < KNOWN_COUNT,
    ensures
        r == known(i as int),
{
    if i == 0 {
        (0x1D50, 0x606F, "candleLight")
    } else if i == 1 {
        (0x1209, 0x2323, "CANable")
    } else if i == 2 {
        (0x1CD2, 0x606F, "CANable2")
    } else if i == 3 {
        (0x16D0, 0x117E, "CES CANext")
    } else {
        (0x1D50, 0x60A1, "cannectivity")
    }
}

/// Whether a vendor/product pair is one of the known adapters.
pub open spec fn is_known(vid: u16, pid: u16) -> bool {
    exists|i: int| 0 <= i < KNOWN_COUNT && #[trigger] known(i).0 == vid && known(i).1 == pid
}

/// The name of an adapter: the table's, or `vvvv:pppp` in lower-case hex.
pub open spec fn spec_describe_ids(vid: u16, pid: u16) -> Seq<char> {
    if is_known(vid, pid) {
        let i = choose|i: int| 0 <= i < KNOWN_COUNT && #[trigger] known(i).0 == vid && known(i).1 == pid
            && forall|j: int| 0 <= j < i ==> !(known(j).0 == vid && known(j).1 == pid);
        known(i).2@
    } else {
        lower(hex_fixed(vid as nat, 4)) + seq![':'] + lower(hex_fixed(pid as nat, 4))
    }
}

/// ASCII letters lowered; everything else kept.
pub open spec fn lower(s: Seq<char>) -> Seq<char> {
    s.map_values(|c: char| if 'A' <= c && c <= 'Z' { ((c as u32) + 32) as char } else { c })
}

pub(crate) fn push_lower_hex(out: &mut Vec<char>, v: u16)
    ensures
        final(out)@ == old(out)@ + lower(hex_fixed(v as nat, 4)),
{
    let mut tmp: Vec<char> = Vec::new();
    push_hex_fixed(&mut tmp, v as u64, 4);
    let mut i: usize = 0;
    let ghost start = out@;
    while i < tmp.len()
        invariant
            0 <= i <= tmp.len(),
            tmp@ == hex_fixed(v as nat, 4),
            out@ == start + lower(tmp@.subrange(0, i as int)),
            start == old(out)@,
        decreases tmp.len() - i,
    {
        let c = tmp[i];
        let l = if 'A' <= c && c <= 'Z' {
            ((c as u32) + 32) as u8 as char
        } else {
            c
        };
        proof {
            if 'A' <= c && c <= 'Z' {
                assert(((c as u32) + 32) as u8 as char == ((c as u32) + 32) as char);
            }
        }
        out.push(l);
        i = i + 1;
        assert(lower(tmp@.subrange(0, i as int)) =~= lower(tmp@.subrange(0, (i - 1) as int)).push(l));
    }
    assert(tmp@.subrange(0, tmp.len() as int) =~= tmp@);
}

/// Whether the ids are those of an adapter this driver knows.
pub fn known_ids(vid: u16, pid: u16) -> (r: bool)
    ensures
        r == is_known(vid, pid),
{
    let mut i: usize = 0;
    while i < KNOWN_COUNT
        invariant
            0 <= i <= KNOWN_COUNT,
            forall|j: int| 0 <= j < i ==> !(#[trigger] known(j).0 == vid && known(j).1 == pid),
        decreases KNOWN_COUNT - i,
    {
        let (v, p, _) = known_entry(i);
        if v == vid && p == pid {
            return true;
        }
        i = i + 1;
    }
    false
}

/// The picker's name for an adapter.
pub fn describe_ids(vid: u16, pid: u16) -> (s: String)
    ensures
        s@ == spec_describe_ids(vid, pid),
{
    let mut i: usize = 0;
    while i < KNOWN_COUNT
        invariant
            0 <= i <= KNOWN_COUNT,
            forall|j: int| 0 <= j < i ==> !(known(j).0 == vid && known(j).1 == pid),
        decreases KNOWN_COUNT - i,
    {
        let (v, p, name) = known_entry(i);
        if v == vid && p == pid {
            proof {
                assert(is_known(vid, pid));
                let c = choose|c: int| 0 <= c < KNOWN_COUNT && #[trigger] known(c).0 == vid
                    && known(c).1 == pid && forall|j: int| 0 <= j < c ==> !(known(j).0 == vid
                    && known(j).1 == pid);
                assert(c == i);
            }
            let mut out: Vec<char> = Vec::new();
            push_str(&mut out, name);
            assert(out@ =~= name@);
            return string_of(&out);
        }
        i = i + 1;
    }
    assert(!is_known(vid, pid));
    let mut out: Vec<char> = Vec::new();
    push_lower_hex(&mut out, vid);
    out.push(':');
    push_lower_hex(&mut out, pid);
    assert(out@ =~= lower(hex_fixed(vid as nat, 4)) + seq![':'] + lower(hex_fixed(pid as nat, 4)));
    string_of(&out)
}

/// What the device says it can do, from `GS_USB_BREQ_BT_CONST`.
#[derive(Clone, Copy, Debug, PartialEq, Eq)]
pub struct BtConst {
    pub fclk_can: u32,
    pub tseg1_min: u32,
    pub tseg1_max: u32,
    pub tseg2_min: u32,
    pub tseg2_max: u32,
    pub sjw_max: u32,
    pub brp_min: u32,
    pub brp_max: u32,
    pub brp_inc: u32,
}

/// The little-endian `u32` at byte `i`.
pub open spec fn le_u32(b: Seq<u8>, i: int) -> u32 {
    (b[i] as int + 256 * b[i + 1] + 65536 * b[i + 2] + 16777216 * b[i + 3]) as u32
}

fn read_le_u32(b: &[u8; 40], i: usize) -> (r: u32)
    requires
        i + 4 <= 40,
    ensures
        r == le_u32(b@, i as int),
{
    b[i] as u32 + (b[i + 1] as u32) * 256 + (b[i + 2] as u32) * 65536 + (b[i + 3] as u32)
        * 16777216
}

impl BtConst {
    /// Decode the 40-byte `BT_CONST` reply. Its first word is the feature
    /// bitmap, which nothing gates on; a zero increment is read as 1.
    pub fn parse(b: &[u8; 40]) -> (r: Self)
        ensures
            r.fclk_can == le_u32(b@, 4),
            r.tseg1_min == le_u32(b@, 8),
            r.tseg1_max == le_u32(b@, 12),
            r.tseg2_min == le_u32(b@, 16),
            r.tseg2_max == le_u32(b@, 20),
            r.sjw_max == le_u32(b@, 24),
            r.brp_min == le_u32(b@, 28),
            r.brp_max == le_u32(b@, 32),
            r.brp_inc == if le_u32(b@, 36) == 0 {
                1
            } else {
                le_u32(b@, 36)
            },
    {
        let inc = read_le_u32(b, 36);
        BtConst {
            fclk_can: read_le_u32(b, 4),
            tseg1_min: read_le_u32(b, 8),
            tseg1_max: read_le_u32(b, 12),
            tseg2_min: read_le_u32(b, 16),
            tseg2_max: read_le_u32(b, 20),
            sjw_max: read_le_u32(b, 24),
            brp_min: read_le_u32(b, 28),
            brp_max: read_le_u32(b, 32),
            brp_inc: if inc == 0 {
                1
            } else {
                inc
            },
        }
    }
}

#[derive(Clone, Copy, Debug, PartialEq, Eq)]
pub struct BitTiming {
    pub prop_seg: u32,
    pub phase_seg1: u32,
    pub phase_seg2: u32,
    pub sjw: u32,
    pub brp: u32,
}

/// The five fields of a timing, in the order the device reads them.
pub open spec fn timing_field(t: BitTiming, i: int) -> u32 {
    if i == 0 {
        t.prop_seg
    } else if i == 1 {
        t.phase_seg1
    } else if i == 2 {
        t.phase_seg2
    } else if i == 3 {
        t.sjw
    } else {
        t.brp
    }
}

/// Byte `j` (0 = least significant) of a `u32`.
pub open spec fn byte_of(v: u32, j: int) -> u8 {
    if j == 0 {
        (v % 256) as u8
    } else if j == 1 {
        ((v / 256) % 256) as u8
    } else if j == 2 {
        ((v / 65536) % 256) as u8
    } else {
        ((v / 16777216) % 256) as u8
    }
}

fn put_le_u32(out: &mut [u8; 20], at: usize, v: u32)
    requires
        at + 4 <= 20,
    ensures
        forall|k: int|
            0 <= k < 20 ==> #[trigger] final(out)@[k] == if at <= k < at + 4 {
                byte_of(v, k - at)
            } else {
                old(out)@[k]
            },
{
    out.set(at, (v % 256) as u8);
    out.set(at + 1, ((v / 256) % 256) as u8);
    out.set(at + 2, ((v / 65536) % 256) as u8);
    out.set(at + 3, ((v / 16777216) % 256) as u8);
}

impl BitTiming {
    /// The 20-byte `BITTIMING` request: the five fields as little-endian words.
    pub fn to_le_bytes(self) -> (out: [u8; 20])
        ensures
            forall|k: int| 0 <= k < 20 ==> #[trigger] out@[k] == byte_of(timing_field(self, k / 4), k % 4),
    {
        let mut out = [0u8; 20];
        put_le_u32(&mut out, 0, self.prop_seg);
        put_le_u32(&mut out, 4, self.phase_seg1);
        put_le_u32(&mut out, 8, self.phase_seg2);
        put_le_u32(&mut out, 12, self.sjw);
        put_le_u32(&mut out, 16, self.brp);
        out
    }
}

/// The sample point the solver aims for, in tenths of a percent: the same
/// targets SocketCAN uses, so a bus configured with `ip link` and one
/// configured here agree.
pub open spec fn target_sp(bitrate: u32) -> int {
    if bitrate > 800_000 {
        750
    } else if bitrate > 500_000 {
        800
    } else {
        875
    }
}

/// Time quanta per bit at a prescaler: `fclk / (bitrate * brp)`, rounded to
/// the nearest integer, halves up.
pub open spec fn quanta(fclk: u32, bitrate: u32, brp: u32) -> int {
    (2 * fclk + bitrate * brp) / (2 * (bitrate * brp))
}

/// `a - b`, or 0 when that would be negative.
pub open spec fn sat_sub(a: int, b: int) -> int {
    if a >= b {
        a - b
    } else {
        0
    }
}

pub open spec fn clamp(v: int, lo: int, hi: int) -> int {
    if v < lo {
        lo
    } else if v > hi {
        hi
    } else {
        v
    }
}

pub open spec fn abs_diff(a: int, b: int) -> int {
    if a >= b {
        a - b
    } else {
        b - a
    }
}

/// How far the rate `fclk / (brp * nbt)` lies from `bitrate`, in parts per
/// billion of `bitrate`, rounded down.
pub open spec fn rate_error(fclk: u32, bitrate: u32, brp: u32, nbt: int) -> int {
    abs_diff(fclk as int, bitrate * brp * nbt) * 1_000_000_000 / (bitrate * brp * nbt)
}

/// What the solver makes of one prescaler: `None` when the bit cannot be built
/// from the device's segment limits at that prescaler, else the rate error,
/// the sample-point error and the timing.
pub open spec fn candidate(bt: BtConst, bitrate: u32, brp: u32) -> Option<(int, int, BitTiming)> {
    let nbt = quanta(bt.fclk_can, bitrate, brp);
    let tsp = target_sp(bitrate);
    if !(nbt >= 1 + bt.tseg1_min + bt.tseg2_min && nbt <= 1 + bt.tseg1_max + bt.tseg2_max) {
        None
    } else {
        let err = rate_error(bt.fclk_can, bitrate, brp, nbt);
        // Place the sample point, then clamp both segments into range.
        let (tseg1, tseg2) = segments(bt, bitrate, nbt);
        if tseg1 >= bt.tseg1_min && tseg1 <= bt.tseg1_max && tseg2 <= bt.tseg2_max {
            let sp = (1 + tseg1) * 1000 / nbt;
            let phase_seg1 = if (tseg1 + 1) / 2 >= 1 {
                (tseg1 + 1) / 2
            } else {
                1
            };
            let sjw = if bt.sjw_max <= tseg2 {
                bt.sjw_max as int
            } else {
                tseg2
            };
            Some(
                (
                    err,
                    abs_diff(sp, tsp),
                    BitTiming {
                        prop_seg: (tseg1 - phase_seg1) as u32,
                        phase_seg1: phase_seg1 as u32,
                        phase_seg2: tseg2 as u32,
                        sjw: if sjw >= 1 {
                            sjw as u32
                        } else {
                            1
                        },
                        brp,
                    },
                ),
            )
        } else {
            None
        }
    }
}

/// The prescalers the device offers: from `max(brp_min, 1)` up to `brp_max`
/// in steps of `brp_inc`.
pub open spec fn offered(bt: BtConst, brp: u32) -> bool {
    let first = if bt.brp_min >= 1 {
        bt.brp_min as int
    } else {
        1
    };
    first <= brp <= bt.brp_max && (brp - first) % (bt.brp_inc as int) == 0
}

/// The rate error of a candidate.
pub open spec fn err_of(c: Option<(int, int, BitTiming)>) -> int {
    let (e, _s, _t) = c->0;
    e
}

/// The timing of a candidate.
pub open spec fn timing_of(c: Option<(int, int, BitTiming)>) -> BitTiming {
    let (_e, _s, t) = c->0;
    t
}

/// `(e1, s1)` sorts strictly before `(e2, s2)`: smaller rate error first,
/// then smaller sample-point error.
pub open spec fn better(e1: int, s1: int, e2: int, s2: int) -> bool {
    e1 < e2 || (e1 == e2 && s1 < s2)
}

/// Prescaler `brp` gives the solver's choice: among the offered prescalers it
/// has the smallest (rate error, sample-point error), and every smaller
/// prescaler is strictly worse.
pub open spec fn best_at(bt: BtConst, bitrate: u32, brp: u32) -> bool {
    &&& offered(bt, brp)
    &&& candidate(bt, bitrate, brp) is Some
    &&& forall|b: u32|
        #![trigger candidate(bt, bitrate, b)]
        offered(bt, b) && candidate(bt, bitrate, b) is Some ==> {
            let (e, s, _) = candidate(bt, bitrate, brp)->0;
            let (e2, s2, _) = candidate(bt, bitrate, b)->0;
            !better(e2, s2, e, s) && (b < brp ==> better(e, s, e2, s2))
        }
}

/// The device limits the solver can work with without overflowing a `u32`
/// or splitting a segment of no quanta.
pub open spec fn sane(bt: BtConst) -> bool {
    &&& bt.brp_inc >= 1
    &&& bt.brp_max + bt.brp_inc <= u32::MAX
    &&& 1 + bt.tseg1_max + bt.tseg2_max <= u32::MAX
    &&& 1 + bt.tseg1_min + bt.tseg2_min <= u32::MAX
    &&& 1 <= bt.tseg1_min <= bt.tseg1_max
}

/// Where the sample point lands for a bit of `nbt` quanta, and the segment
/// lengths: `(tseg1, tseg2)`, before the range check.
pub open spec fn segments(bt: BtConst, bitrate: u32, nbt: int) -> (int, int) {
    let tsp = target_sp(bitrate);
    let t1 = clamp(sat_sub(nbt * tsp / 1000, 1), bt.tseg1_min as int, bt.tseg1_max as int);
    let t2 = sat_sub(sat_sub(nbt, 1), t1);
    if t2 < bt.tseg2_min {
        (sat_sub(sat_sub(nbt, 1), bt.tseg2_min as int), bt.tseg2_min as int)
    } else {
        (t1, t2)
    }
}

/// Time quanta per bit, computed.
fn quanta_exec(fclk: u32, bitrate: u32, brp: u32) -> (r: (u128, u128))
    requires
        bitrate > 0,
        brp > 0,
    ensures
        r.0 == quanta(fclk, bitrate, brp),
        r.1 == bitrate * brp,
        1 <= r.1 <= 0xFFFF_FFFF_FFFF_FFFFu128,
{
    let b1: u128 = bitrate as u128;
    let b2: u128 = brp as u128;
    proof {
        assert(1 <= b1 * b2 <= 0xFFFF_FFFF_FFFF_FFFFu128) by (nonlinear_arith)
            requires
                1 <= b1 <= 0xFFFF_FFFFu128,
                1 <= b2 <= 0xFFFF_FFFFu128,
        ;
    }
    let d: u128 = b1 * b2;
    ((2 * (fclk as u128) + d) / (2 * d), d)
}

/// The rate error, computed.
fn rate_error_exec(fclk: u32, bitrate: u32, brp: u32, d: u128, nbt: u128) -> (r: u128)
    requires
        d == bitrate * brp,
        1 <= d <= 0xFFFF_FFFF_FFFF_FFFFu128,
        1 <= nbt <= 0xFFFF_FFFFu128,
    ensures
        r == rate_error(fclk, bitrate, brp, nbt as int),
{
    proof {
        assert(1 <= d * nbt <= 0xFFFF_FFFF_FFFF_FFFF_FFFF_FFFFu128) by (nonlinear_arith)
            requires
                1 <= d <= 0xFFFF_FFFF_FFFF_FFFFu128,
                1 <= nbt <= 0xFFFF_FFFFu128,
        ;
        assert(d * nbt == bitrate * brp * nbt) by (nonlinear_arith)
            requires
                d == bitrate * brp,
        ;
    }
    let prod: u128 = d * nbt;
    let f: u128 = fclk as u128;
    let diff: u128 = if f >= prod {
        f - prod
    } else {
        prod - f
    };
    proof {
        assert(diff <= 0xFFFF_FFFF_FFFF_FFFF_FFFF_FFFFu128);
        assert(diff * 1_000_000_000 <= 0xFFFF_FFFF_FFFF_FFFF_FFFF_FFFFu128 * 1_000_000_000) by (nonlinear_arith)
            requires
                diff <= 0xFFFF_FFFF_FFFF_FFFF_FFFF_FFFFu128,
        ;
    }
    diff * 1_000_000_000 / prod
}

/// The segment lengths, computed.
fn segments_exec(bt: &BtConst, bitrate: u32, n: u64) -> (r: (u64, u64))
    requires
        1 <= n <= 0xFFFF_FFFF,
    ensures
        r.0 == segments(*bt, bitrate, n as int).0,
        r.1 == segments(*bt, bitrate, n as int).1,
        r.0 <= 0xFFFF_FFFF,
        r.1 <= 0xFFFF_FFFF,
{
    let tsp: u64 = if bitrate > 800_000 {
        750
    } else if bitrate > 500_000 {
        800
    } else {
        875
    };
    let placed: u64 = n * tsp / 1000;
    let mut tseg1: u64 = if placed >= 1 {
        placed - 1
    } else {
        0
    };
    if tseg1 < bt.tseg1_min as u64 {
        tseg1 = bt.tseg1_min as u64;
    } else if tseg1 > bt.tseg1_max as u64 {
        tseg1 = bt.tseg1_max as u64;
    }
    let before_last: u64 = n - 1;
    let tseg2: u64 = if before_last >= tseg1 {
        before_last - tseg1
    } else {
        0
    };
    if tseg2 < bt.tseg2_min as u64 {
        let t2 = bt.tseg2_min as u64;
        let t1 = if before_last >= t2 {
            before_last - t2
        } else {
            0
        };
        (t1, t2)
    } else {
        (tseg1, tseg2)
    }
}

/// The candidate for one prescaler, computed.
fn try_prescaler(bt: &BtConst, bitrate: u32, brp: u32) -> (r: Option<(u128, u64, BitTiming)>)
    requires
        sane(*bt),
        bitrate > 0,
        brp > 0,
    ensures
        match r {
            Some((e, s, t)) => candidate(*bt, bitrate, brp) == Some((e as int, s as int, t)),
            None => candidate(*bt, bitrate, brp) is None,
        },
{
    let (nbt, d) = quanta_exec(bt.fclk_can, bitrate, brp);
    let lo: u128 = 1 + bt.tseg1_min as u128 + bt.tseg2_min as u128;
    let hi: u128 = 1 + bt.tseg1_max as u128 + bt.tseg2_max as u128;
    if !(nbt >= lo && nbt <= hi) {
        return None;
    }
    let err = rate_error_exec(bt.fclk_can, bitrate, brp, d, nbt);
    let n: u64 = nbt as u64;
    let (tseg1, tseg2) = segments_exec(bt, bitrate, n);
    if !(tseg1 >= bt.tseg1_min as u64 && tseg1 <= bt.tseg1_max as u64 && tseg2
        <= bt.tseg2_max as u64) {
        return None;
    }
    let tsp: u64 = if bitrate > 800_000 {
        750
    } else if bitrate > 500_000 {
        800
    } else {
        875
    };
    let sp: u64 = (1 + tseg1) * 1000 / n;
    let sp_err: u64 = if sp >= tsp {
        sp - tsp
    } else {
        tsp - sp
    };
    let half: u64 = (tseg1 + 1) / 2;
    let phase_seg1: u64 = if half >= 1 {
        half
    } else {
        1
    };
    let sjw0: u64 = if (bt.sjw_max as u64) <= tseg2 {
        bt.sjw_max as u64
    } else {
        tseg2
    };
    let sjw: u64 = if sjw0 >= 1 {
        sjw0
    } else {
        1
    };
    Some(
        (
            err,
            sp_err,
            BitTiming {
                prop_seg: (tseg1 - phase_seg1) as u32,
                phase_seg1: phase_seg1 as u32,
                phase_seg2: tseg2 as u32,
                sjw: sjw as u32,
                brp,
            },
        ),
    )
}

/// Two offered prescalers lie at least one step apart.
proof fn lemma_step_apart(first: int, inc: int, b: int, a: int)
    requires
        inc >= 1,
        first <= a < b,
        (b - first) % inc == 0,
        (a - first) % inc == 0,
    ensures
        b >= a + inc,
{
    let q1 = (b - first) / inc;
    let q0 = (a - first) / inc;
    vstd::arithmetic::div_mod::lemma_fundamental_div_mod(b - first, inc);
    vstd::arithmetic::div_mod::lemma_fundamental_div_mod(a - first, inc);
    assert(b - first == inc * q1);
    assert(a - first == inc * q0);
    assert(b >= a + inc) by (nonlinear_arith)
        requires
            b - first == inc * q1,
            a - first == inc * q0,
            inc >= 1,
            a < b,
    ;
}

impl BtConst {
    /// Whether the solver can work with these limits (see [`sane`]).
    pub fn is_sane(&self) -> (r: bool)
        ensures
            r == sane(*self),
    {
        self.brp_inc >= 1 && self.brp_max as u64 + self.brp_inc as u64 <= u32::MAX as u64 && 1 + self.tseg1_max as u64
            + self.tseg2_max as u64 <= u32::MAX as u64 && 1 + self.tseg1_min as u64 + self.tseg2_min as u64
            <= u32::MAX as u64 && 1 <= self.tseg1_min && self.tseg1_min <= self.tseg1_max
    }
}

impl BitTiming {
    /// Solve for a bitrate, so the user types `500000` and never sees a segment.
    ///
    /// Walks every prescaler the device offers, keeps the one whose bit rate
    /// is closest, breaking ties on the sample point and then on the smaller
    /// prescaler, and refuses anything more than 0.5% off.
    pub fn solve(bt: &BtConst, bitrate: u32) -> (r: Option<Self>)
        requires
            sane(*bt),
        ensures
            match r {
                Some(t) => bitrate > 0 && bt.fclk_can > 0 && exists|b: u32|
                    #[trigger] best_at(*bt, bitrate, b) && timing_of(candidate(*bt, bitrate, b)) == t
                        && err_of(candidate(*bt, bitrate, b)) <= MAX_RATE_ERROR_PPB,
                None => bitrate == 0 || bt.fclk_can == 0 || forall|b: u32|
                    #![trigger candidate(*bt, bitrate, b)]
                    offered(*bt, b) && candidate(*bt, bitrate, b) is Some ==> err_of(candidate(*bt, bitrate, b)) > MAX_RATE_ERROR_PPB,
            },
    {
        if bitrate == 0 || bt.fclk_can == 0 {
            return None;
        }
        let first: u32 = if bt.brp_min >= 1 {
            bt.brp_min
        } else {
            1
        };
        let mut best: Option<(u128, u64, BitTiming, u32)> = None;
        let mut brp: u32 = first;
        assert((brp - first) % (bt.brp_inc as int) == 0) by (nonlinear_arith)
            requires
                brp == first,
                bt.brp_inc >= 1,
        ;
        while brp <= bt.brp_max
            invariant
                sane(*bt),
                bitrate > 0,
                first >= 1,
                first == if bt.brp_min >= 1 {
                    bt.brp_min as int
                } else {
                    1
                },
                first <= brp,
                brp <= bt.brp_max + bt.brp_inc || brp == first,
                (brp - first) % (bt.brp_inc as int) == 0,
                match best {
                    None => forall|b: u32|
                        #![trigger candidate(*bt, bitrate, b)]
                        offered(*bt, b) && b < brp ==> candidate(*bt, bitrate, b) is None,
                    Some((e, s, t, bb)) => {
                        &&& offered(*bt, bb)
                        &&& bb < brp
                        &&& candidate(*bt, bitrate, bb) == Some((e as int, s as int, t))
                        &&& forall|b: u32|
                            #![trigger candidate(*bt, bitrate, b)]
                            offered(*bt, b) && b < brp && candidate(*bt, bitrate, b) is Some ==> {
                                let (e2, s2, _) = candidate(*bt, bitrate, b)->0;
                                !better(e2, s2, e as int, s as int) && (b < bb ==> better(
                                    e as int,
                                    s as int,
                                    e2,
                                    s2,
                                ))
                            }
                    },
                },
            decreases bt.brp_max + bt.brp_inc - brp,
        {
            let c = try_prescaler(bt, bitrate, brp);
            let ghost old_best = best;
            match c {
                Some((e, s, t)) => {
                    let replace = match best {
                        None => true,
                        Some((be, bs, _, _)) => e < be || (e == be && s < bs),
                    };
                    if replace {
                        best = Some((e, s, t, brp));
                    }
                },
                None => {},
            }
            let ghost old_brp = brp;
            brp = brp + bt.brp_inc;
            proof {
                // Every offered prescaler below the new `brp` is either below
                // the old one or is the old one itself.
                assert forall|b: u32| offered(*bt, b) && b < brp implies b < old_brp || b == old_brp by {
                    if b > old_brp {
                        lemma_step_apart(first as int, bt.brp_inc as int, b as int, old_brp as int);
                    }
                }
                assert((brp - first) % (bt.brp_inc as int) == 0) by (nonlinear_arith)
                    requires
                        (old_brp - first) % (bt.brp_inc as int) == 0,
                        brp == old_brp + bt.brp_inc,
                        bt.brp_inc >= 1,
                ;
                assert(offered(*bt, old_brp));
            }
        }
        match best {
            Some((e, _, t, bb)) => {
                if e <= MAX_RATE_ERROR_PPB as u128 {
                    proof {
                        assert forall|b: u32|
                            #![trigger candidate(*bt, bitrate, b)]
                            offered(*bt, b) && candidate(*bt, bitrate, b) is Some implies b < brp by {}
                        assert(best_at(*bt, bitrate, bb));
                    }
                    Some(t)
                } else {
                    proof {
                        assert forall|b: u32|
                            #![trigger candidate(*bt, bitrate, b)]
                            offered(*bt, b) && candidate(*bt, bitrate, b) is Some implies err_of(candidate(*bt, bitrate, b)) > MAX_RATE_ERROR_PPB by {
                            assert(b < brp);
                        }
                    }
                    None
                }
            },
            None => {
                proof {
                    assert forall|b: u32|
                        #![trigger candidate(*bt, bitrate, b)]
                        offered(*bt, b) && candidate(*bt, bitrate, b) is Some implies err_of(candidate(*bt, bitrate, b)) > MAX_RATE_ERROR_PPB by {
                        assert(b < brp);
                    }
                }
                None
            },
        }
    }
}

/// The `can_id` word of a host frame: the identifier, with bit 31 set when it
/// is extended.
pub fn packed_id(id: Id) -> (r: u32)
    ensures
        r == canid::spec_key(id),
{
    canid::key(id)
}

/// The frame a 20-byte-or-longer host frame carries, if it is one: `None` for
/// an error frame; a remote frame carries no payload; the data length is
/// capped at 8; `echo` is set when the adapter is handing back a frame we sent.
pub open spec fn spec_host_frame(b: Seq<u8>) -> Option<(u32, bool, Seq<u8>, bool)> {
    let echo_id = le_u32_seq(b, 0);
    let can_id = le_u32_seq(b, 4);
    if can_id & CAN_ERR_FLAG != 0 {
        None
    } else {
        let dlc = if b[8] <= 8 {
            b[8] as int
        } else {
            8
        };
        let made = canid::spec_make(can_id & 0x1FFF_FFFFu32, can_id & CAN_EFF_FLAG != 0);
        let data = if can_id & CAN_RTR_FLAG != 0 {
            Seq::empty()
        } else {
            b.subrange(12, 12 + dlc)
        };
        Some((made.0, made.1, data, echo_id != ECHO_NONE))
    }
}

/// The little-endian `u32` at byte `i` of a sequence.
pub open spec fn le_u32_seq(b: Seq<u8>, i: int) -> u32 {
    (b[i] as int + 256 * b[i + 1] + 65536 * b[i + 2] + 16777216 * b[i + 3]) as u32
}

fn read_le_u32_slice(b: &[u8], i: usize) -> (r: u32)
    requires
        i + 4 <= b@.len(),
    ensures
        r == le_u32_seq(b@, i as int),
{
    b[i] as u32 + (b[i + 1] as u32) * 256 + (b[i + 2] as u32) * 65536 + (b[i + 3] as u32)
        * 16777216
}

/// Read a frame the adapter sent on its IN endpoint.
pub fn parse_host_frame(b: &[u8]) -> (r: Option<Frame>)
    requires
        b@.len() >= HOST_FRAME_LEN,
    ensures
        match spec_host_frame(b@) {
            None => r is None,
            Some((raw, ext, data, echo)) => r is Some && r->0.id.value() == raw && r->0.id.is_ext()
                == ext && r->0.data@ == data && r->0.echo == echo,
        },
{
    let echo_id = read_le_u32_slice(b, 0);
    let can_id = read_le_u32_slice(b, 4);
    if can_id & CAN_ERR_FLAG != 0 {
        // error frames are surfaced through the bus, not the RX table
        return None;
    }
    let dlc: usize = if b[8] <= 8 {
        b[8] as usize
    } else {
        8
    };
    let id = match canid::make(can_id & 0x1FFF_FFFF, can_id & CAN_EFF_FLAG != 0) {
        Some(id) => id,
        None => {
            return None;
        },
    };
    let data = if can_id & CAN_RTR_FLAG != 0 {
        Payload::new(&[])
    } else {
        let mut v: Vec<u8> = Vec::new();
        let mut i: usize = 0;
        while i < dlc
            invariant
                0 <= i <= dlc,
                dlc <= 8,
                b@.len() >= 20,
                v@ == b@.subrange(12, 12 + i as int),
            decreases dlc - i,
        {
            v.push(b[12 + i]);
            i = i + 1;
            assert(v@ =~= b@.subrange(12, 12 + i as int));
        }
        Payload::new(v.as_slice())
    };
    Some(Frame { id, data, echo: echo_id != ECHO_NONE })
}

/// The 20-byte host frame that sends `frame`, tagged with `echo_seq` so its
/// echo is recognisable: echo id, `can_id` (with the extended flag), length,
/// channel 0, two flag bytes, then up to 8 data bytes.
pub fn host_frame(echo_seq: u32, frame: &Frame) -> (out: [u8; 20])
    requires
        frame.data@.len() <= 8,
    ensures
        forall|k: int|
            0 <= k < 20 ==> #[trigger] out@[k] == if k < 4 {
                byte_of(echo_seq, k)
            } else if k < 8 {
                byte_of(canid::spec_key(frame.id), k - 4)
            } else if k == 8 {
                frame.data@.len() as u8
            } else if 12 <= k < 12 + frame.data@.len() {
                frame.data@[k - 12]
            } else {
                0u8
            },
{
    let mut buf = [0u8; 20];
    put_le_u32_20(&mut buf, 0, echo_seq);
    put_le_u32_20(&mut buf, 4, packed_id(frame.id));
    let n = frame.data.len();
    buf.set(8, n as u8);
    let mut i: usize = 0;
    while i < n
        invariant
            0 <= i <= n,
            n == frame.data@.len(),
            n <= 8,
            forall|k: int|
                0 <= k < 20 ==> #[trigger] buf@[k] == if k < 4 {
                    byte_of(echo_seq, k)
                } else if k < 8 {
                    byte_of(canid::spec_key(frame.id), k - 4)
                } else if k == 8 {
                    n as u8
                } else if 12 <= k < 12 + i {
                    frame.data@[k - 12]
                } else {
                    0u8
                },
        decreases n - i,
    {
        buf.set(12 + i, frame.data.get(i));
        i = i + 1;
    }
    buf
}

fn put_le_u32_20(out: &mut [u8; 20], at: usize, v: u32)
    requires
        at + 4 <= 20,
    ensures
        forall|k: int|
            0 <= k < 20 ==> #[trigger] final(out)@[k] == if at <= k < at + 4 {
                byte_of(v, k - at)
            } else {
                old(out)@[k]
            },
{
    put_le_u32(out, at, v);
}

/// The echo tag after `seq`: one more, kept to 24 bits.
pub fn next_echo_seq(seq: u32) -> (r: u32)
    ensures
        r == ((seq as int + 1) % 0x1_0000_0000) % 0x100_0000,
{
    let n = seq.wrapping_add(1);
    assert((n & 0x00FF_FFFFu32) == n % 0x100_0000u32) by (bit_vector);
    n & 0x00FF_FFFF
}

/// The 8-byte `MODE` request: the mode word, then flags of 0 (classic CAN).
pub fn mode_payload(mode: u32) -> (out: [u8; 8])
    ensures
        forall|k: int| 0 <= k < 8 ==> #[trigger] out@[k] == if k < 4 {
            byte_of(mode, k)
        } else {
            0u8
        },
{
    let mut out = [0u8; 8];
    out.set(0, (mode % 256) as u8);
    out.set(1, ((mode / 256) % 256) as u8);
    out.set(2, ((mode / 65536) % 256) as u8);
    out.set(3, ((mode / 16777216) % 256) as u8);
    out
}

/// The 4-byte `HOST_FORMAT` request: the byte-order probe.
pub fn host_format_payload() -> (out: [u8; 4])
    ensures
        forall|k: int| 0 <= k < 4 ==> #[trigger] out@[k] == byte_of(HOST_MAGIC, k),
{
    let mut out = [0u8; 4];
    out.set(0, 0xEF);
    out.set(1, 0xBE);
    out
}

/// The header label of an open adapter: `name @ rate`.
pub fn describe(name: &str, bitrate: u32) -> (s: String)
    ensures
        s@ == name@ + " @ "@ + crate::fmt::spec_fmt_bitrate(bitrate),
{
    let mut out: Vec<char> = Vec::new();
    push_str(&mut out, name);
    push_str(&mut out, " @ ");
    crate::fmt::push_bitrate(&mut out, bitrate);
    assert(out@ =~= name@ + " @ "@ + crate::fmt::spec_fmt_bitrate(bitrate));
    string_of(&out)
}

/// What to tell the user when the adapter cannot be claimed.
pub const PERMISSION_HINT: &'static str = "cannot claim the USB device. On Linux, install a udev rule (run `tuican --print-udev-rule`) and replug; on macOS, unplug and replug the adapter.";

/// The USB device to open for a remembered adapter: the first with its ids
/// in its old slot, else the first with its ids, else none.
pub fn choose_device(devs: &Vec<(u8, u8, u16, u16)>, bus: u8, address: u8, vid: u16, pid: u16) -> (r: Option<usize>)
    ensures
        match r {
            Some(i) => i < devs@.len() && devs@[i as int].2 == vid && devs@[i as int].3 == pid && (
                (devs@[i as int].0 == bus && devs@[i as int].1 == address && forall|j: int| 0 <= j < i ==> !(#[trigger] devs@[j].2 == vid && devs@[j].3 == pid && devs@[j].0 == bus && devs@[j].1 == address))
                || ((forall|j: int| 0 <= j < devs@.len() ==> !(#[trigger] devs@[j].2 == vid && devs@[j].3 == pid && devs@[j].0 == bus && devs@[j].1 == address))
                    && forall|j: int| 0 <= j < i ==> !(#[trigger] devs@[j].2 == vid && devs@[j].3 == pid))
            ),
            None => forall|j: int| 0 <= j < devs@.len() ==> !(#[trigger] devs@[j].2 == vid && devs@[j].3 == pid),
        },
{
    let mut first: Option<usize> = None;
    let mut i: usize = 0;
    while i < devs.len()
        invariant
            0 <= i <= devs@.len(),
            forall|j: int| 0 <= j < i ==> !(#[trigger] devs@[j].2 == vid && devs@[j].3 == pid && devs@[j].0 == bus && devs@[j].1 == address),
            match first {
                Some(f) => f < i && devs@[f as int].2 == vid && devs@[f as int].3 == pid && forall|j: int| 0 <= j < f ==> !(#[trigger] devs@[j].2 == vid && devs@[j].3 == pid),
                None => forall|j: int| 0 <= j < i ==> !(#[trigger] devs@[j].2 == vid && devs@[j].3 == pid),
            },
        decreases devs@.len() - i,
    {
        let (b, a, v, p) = devs[i];
        if v == vid && p == pid {
            if b == bus && a == address {
                return Some(i);
            }
            if first.is_none() {
                first = Some(i);
            }
        }
        i = i + 1;
    }
    first
}

/// What libusb reported going wrong.
#[derive(Clone, Copy, Debug, PartialEq, Eq, Structural)]
pub enum UsbFailure {
    /// Access denied.
    Access,
    /// The device is gone.
    NoDevice,
    /// Another program (or the kernel driver) holds the device.
    Busy,
    /// Anything else.
    Other,
}

/// How a USB failure is reported: no access with the fix for it, a vanished
/// device as a lost link, a busy one with what is holding it, anything else in
/// libusb's words.
pub fn usb_error(kind: UsbFailure, message: String) -> (e: TransportError)
    ensures
        kind == UsbFailure::Access ==> (e matches TransportError::Permission(t) && t@ == PERMISSION_HINT@),
        kind == UsbFailure::NoDevice ==> e == TransportError::Disconnected,
        kind == UsbFailure::Busy ==> (e matches TransportError::Permission(t) && t@
            == "the device is claimed by another program (or by gs_usb.ko, use SocketCAN instead)"@),
        kind == UsbFailure::Other ==> e == TransportError::Other(message),
{
    match kind {
        UsbFailure::Access => TransportError::Permission(String::from_str(PERMISSION_HINT)),
        UsbFailure::NoDevice => TransportError::Disconnected,
        UsbFailure::Busy => TransportError::Permission(
            String::from_str("the device is claimed by another program (or by gs_usb.ko, use SocketCAN instead)"),
        ),
        UsbFailure::Other => TransportError::Other(message),
    }
}


/// The 20 bytes [`host_frame`] sends for `frame` tagged `echo_seq`.
pub open spec fn host_bytes(echo_seq: u32, frame: Frame) -> Seq<u8> {
    Seq::new(
        20,
        |k: int|
            if k < 4 {
                byte_of(echo_seq, k)
            } else if k < 8 {
                byte_of(canid::spec_key(frame.id), k - 4)
            } else if k == 8 {
                frame.data@.len() as u8
            } else if 12 <= k < 12 + frame.data@.len() {
                frame.data@[k - 12]
            } else {
                0u8
            },
    )
}

/// Four bytes written least significant first read back as the word.
proof fn lemma_bytes_read_back(v: u32)
    ensures
        (byte_of(v, 0) as int + 256 * byte_of(v, 1) + 65536 * byte_of(v, 2) + 16777216 * byte_of(v, 3)) as u32
            == v,
{
    assert((v % 256) as int + 256 * ((v / 256) % 256) + 65536 * ((v / 65536) % 256) + 16777216 * ((v / 16777216)
        % 256) == v) by (nonlinear_arith);
}

/// What the adapter hands back of a frame we sent is that frame, marked as
/// our echo unless it was sent with the tag that means "no echo": the same
/// identifier, the same kind, the same bytes.
pub proof fn law_a_sent_frame_comes_back_as_itself(echo_seq: u32, frame: Frame)
    requires
        frame.data@.len() <= 8,
        frame.id.is_ext() ==> frame.id.value() <= canid::EXTENDED_MAX,
        !frame.id.is_ext() ==> frame.id.value() <= canid::STANDARD_MAX,
    ensures
        spec_host_frame(host_bytes(echo_seq, frame)) == Some(
            (frame.id.value(), frame.id.is_ext(), frame.data@, echo_seq != ECHO_NONE),
        ),
{
    let b = host_bytes(echo_seq, frame);
    let key = canid::spec_key(frame.id);
    lemma_bytes_read_back(echo_seq);
    lemma_bytes_read_back(key);
    assert(le_u32_seq(b, 0) == echo_seq);
    assert(le_u32_seq(b, 4) == key);
    let v = frame.id.value();
    if frame.id.is_ext() {
        assert(key == (v + 0x8000_0000) as u32);
        assert((v <= 0x1FFF_FFFFu32 && key == (v + 0x8000_0000u32) as u32) ==> ((key & 0x2000_0000u32) == 0 && (key
            & 0x1FFF_FFFFu32) == v && (key & 0x8000_0000u32) != 0 && (key & 0x4000_0000u32) == 0 && (v & 0x1FFF_FFFFu32)
            == v)) by (bit_vector);
    } else {
        assert(key == v);
        assert(v <= 0x7FFu32 ==> (v & 0x2000_0000u32) == 0 && (v & 0x1FFF_FFFFu32) == v && (v & 0x8000_0000u32) == 0
            && (v & 0x4000_0000u32) == 0) by (bit_vector);
    }
    assert(b.subrange(12, 12 + frame.data@.len() as int) =~= frame.data@);
}

} // verus!
