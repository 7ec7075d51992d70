//! Bit-level encode and decode.
//!
//! Bits are walked one at a time rather than shifted as a `u64`: Motorola's
//! sawtooth numbering falls out of the index arithmetic, and nothing assumes an
//! 8-byte payload, so CAN FD frames work unchanged.
//!
//! Both byte orders are described by one *linear* bit index. For an Intel
//! (little-endian) signal, linear index `l` is bit `l % 8` of byte `l / 8`; for
//! a Motorola (big-endian) one it is bit `7 - l % 8` of byte `l / 8`. A signal
//! then occupies `len` consecutive linear indices starting at [`first_bit`],
//! its least significant bit first (Intel) or its most significant bit first
//! (Motorola).

use vstd::prelude::*;

use super::mux::{active_signals, lemma_active_prefix_bounds, spec_active};
use super::{MessageDef, SignalDef};

verus! {

/// Bit `p` (0 = least significant) of a byte.
pub open spec fn byte_bit(b: u8, p: u8) -> bool {
    (b >> p) & 1u8 == 1u8
}

/// Bit `k` (0 = least significant) of a 64-bit value.
pub open spec fn u64_bit(v: u64, k: u64) -> bool {
    (v >> k) & 1u64 == 1u64
}

/// The linear index of a signal's first bit on the wire.
pub open spec fn first_bit(start: u16, big_endian: bool) -> int {
    if big_endian {
        (start / 8) * 8 + 7 - start % 8
    } else {
        start as int
    }
}

/// Which bit of its byte linear index `l` names.
pub open spec fn bit_in_byte(l: int, big_endian: bool) -> int {
    if big_endian {
        7 - l % 8
    } else {
        l % 8
    }
}

/// The linear index of bit `p` of byte `j`.
pub open spec fn linear(j: int, p: int, big_endian: bool) -> int {
    if big_endian {
        8 * j + 7 - p
    } else {
        8 * j + p
    }
}

/// The bit at linear index `l` of a payload; bits past its end read as 0.
pub open spec fn lin_bit(data: Seq<u8>, l: int, big_endian: bool) -> bool {
    0 <= l && l / 8 < data.len() && byte_bit(data[l / 8], bit_in_byte(l, big_endian) as u8)
}

/// The `i`-th bit of a field in wire order.
pub open spec fn wire_bit(data: Seq<u8>, start: u16, big_endian: bool, i: int) -> bool {
    lin_bit(data, first_bit(start, big_endian) + i, big_endian)
}

/// The bit of significance `k` of a field `len` bits wide.
pub open spec fn field_bit(data: Seq<u8>, start: u16, len: nat, big_endian: bool, k: int) -> bool {
    if big_endian {
        wire_bit(data, start, big_endian, len - 1 - k)
    } else {
        wire_bit(data, start, big_endian, k)
    }
}

/// `v` is what reading the field yields: bit `k` of `v` is the field's bit of
/// significance `k`, and every bit at or above the width is 0. A field wider
/// than 64 bits keeps its low 64.
pub open spec fn extracts(v: u64, data: Seq<u8>, start: u16, len: nat, big_endian: bool) -> bool {
    forall|k: u64|
        #![trigger u64_bit(v, k)]
        k < 64 ==> u64_bit(v, k) == (k < len && field_bit(data, start, len, big_endian, k as int))
}

/// The bit of `raw` that belongs at wire position `i` of a `len`-bit field.
pub open spec fn src_bit(raw: u64, len: u16, big_endian: bool, i: int) -> u8 {
    if big_endian {
        ((raw >> ((len - 1 - i) as u64)) & 1u64) as u8
    } else {
        ((raw >> (i as u64)) & 1u64) as u8
    }
}

/// `b` with bit `p` replaced by `s` (0 or 1).
pub open spec fn set_bit(b: u8, p: u8, s: u8) -> u8 {
    (b & !(1u8 << p)) | (s << p)
}

/// The payload after writing the first `n` wire bits of `raw`, one at a time,
/// into a field; bits that fall past the end of the payload are dropped.
pub open spec fn put_bits(
    data: Seq<u8>,
    start: u16,
    len: u16,
    big_endian: bool,
    raw: u64,
    n: nat,
) -> Seq<u8>
    decreases n,
{
    if n == 0 {
        data
    } else {
        let d = put_bits(data, start, len, big_endian, raw, (n - 1) as nat);
        let l = first_bit(start, big_endian) + (n - 1);
        if l / 8 < d.len() {
            d.update(
                l / 8,
                set_bit(d[l / 8], bit_in_byte(l, big_endian) as u8, src_bit(raw, len, big_endian, n - 1)),
            )
        } else {
            d
        }
    }
}

/// The payload after writing all of `raw`'s field into it.
pub open spec fn put_field(data: Seq<u8>, start: u16, len: u16, big_endian: bool, raw: u64) -> Seq<
    u8,
> {
    put_bits(data, start, len, big_endian, raw, len as nat)
}

// ---------------------------------------------------------------------------
// Bit-vector facts.

proof fn lemma_le_step(v: u64, b: u64, i: u64, k: u64)
    requires
        b <= 1,
        i < 64,
        k < 64,
    ensures
        u64_bit(v | (b << i), k) == (u64_bit(v, k) || (k == i && b == 1)),
{
    assert(u64_bit(v | (b << i), k) == (u64_bit(v, k) || (k == i && b == 1))) by (bit_vector)
        requires
            b <= 1,
            i < 64,
            k < 64,
    ;
}

proof fn lemma_le_bound(v: u64, b: u64, i: u64)
    requires
        b <= 1,
        i < 64,
        v >> i == 0,
    ensures
        i + 1 < 64 ==> (v | (b << i)) >> (i + 1) == 0,
{
    assert(i + 1 < 64 ==> (v | (b << i)) >> (i + 1) == 0) by (bit_vector)
        requires
            b <= 1,
            i < 64,
            v >> i == 0,
    ;
}

proof fn lemma_be_step(v: u64, b: u64, k: u64)
    requires
        b <= 1,
        k < 64,
    ensures
        u64_bit((v << 1) | b, k) == if k == 0 {
            b == 1
        } else {
            u64_bit(v, (k - 1) as u64)
        },
{
    assert(u64_bit((v << 1) | b, k) == if k == 0 {
        b == 1
    } else {
        u64_bit(v, (k - 1) as u64)
    }) by (bit_vector)
        requires
            b <= 1,
            k < 64,
    ;
}

proof fn lemma_be_bound(v: u64, b: u64, i: u64)
    requires
        b <= 1,
        i < 64,
        v >> i == 0,
    ensures
        i + 1 < 64 ==> ((v << 1) | b) >> (i + 1) == 0,
{
    assert(i + 1 < 64 ==> ((v << 1) | b) >> (i + 1) == 0) by (bit_vector)
        requires
            b <= 1,
            i < 64,
            v >> i == 0,
    ;
}

proof fn lemma_set_bit(b: u8, p: u8, s: u8, q: u8)
    requires
        p < 8,
        q < 8,
        s <= 1,
    ensures
        byte_bit(set_bit(b, p, s), q) == if q == p {
            s == 1
        } else {
            byte_bit(b, q)
        },
{
    assert(byte_bit(set_bit(b, p, s), q) == if q == p {
        s == 1
    } else {
        byte_bit(b, q)
    }) by (bit_vector)
        requires
            p < 8,
            q < 8,
            s <= 1,
    ;
}

proof fn lemma_src_bit(raw: u64, s: u64)
    requires
        s < 64,
    ensures
        ((raw >> s) & 1u64) <= 1,
        (((raw >> s) & 1u64) as u8 == 1u8) == u64_bit(raw, s),
{
    assert(((raw >> s) & 1u64) <= 1) by (bit_vector);
}

proof fn lemma_byte_bit_value(b: u8, p: u8)
    requires
        p < 8,
    ensures
        ((b >> p) & 1u8) <= 1,
        (((b >> p) & 1u8) as u64 == 1u64) == byte_bit(b, p),
{
    assert(((b >> p) & 1u8) <= 1) by (bit_vector);
}

/// Two 64-bit values that agree on every bit at or above `k` agree on their
/// top `64 - k` bits as a number.
proof fn lemma_bits_agree_from(a: u64, b: u64, k: u64)
    requires
        k < 64,
        forall|j: u64| k <= j < 64 ==> #[trigger] u64_bit(a, j) == u64_bit(b, j),
    ensures
        a >> k == b >> k,
    decreases 64 - k,
{
    if k == 63 {
        assert(u64_bit(a, 63) == u64_bit(b, 63));
        assert((u64_bit(a, 63) == u64_bit(b, 63)) ==> a >> 63u64 == b >> 63u64) by (bit_vector);
    } else {
        lemma_bits_agree_from(a, b, (k + 1) as u64);
        assert(u64_bit(a, k) == u64_bit(b, k));
        assert((a >> (k + 1) == b >> (k + 1) && u64_bit(a, k) == u64_bit(b, k) && k < 63) ==> a
            >> k == b >> k) by (bit_vector);
    }
}

/// Values are equal when all their bits are.
pub proof fn lemma_bits_equal(a: u64, b: u64)
    requires
        forall|j: u64| j < 64 ==> #[trigger] u64_bit(a, j) == u64_bit(b, j),
    ensures
        a == b,
{
    lemma_bits_agree_from(a, b, 0);
    assert(a >> 0u64 == a && b >> 0u64 == b) by (bit_vector);
}

// ---------------------------------------------------------------------------
// Reading.

fn bit_at(data: &[u8], byte: usize, bit: u32) -> (b: u64)
    requires
        bit < 8,
    ensures
        b <= 1,
        (b == 1) == (byte < data@.len() && byte_bit(data@[byte as int], bit as u8)),
{
    if byte < data.len() {
        let p: u8 = bit as u8;
        proof {
            lemma_byte_bit_value(data@[byte as int], p);
        }
        ((data[byte] >> p) & 1) as u64
    } else {
        0
    }
}

/// Read `len` bits starting at the DBC `start` bit.
pub fn extract(data: &[u8], start: u16, len: u16, big_endian: bool) -> (v: u64)
    requires
        !big_endian ==> len <= 64,
    ensures
        extracts(v, data@, start, len as nat, big_endian),
        len < 64 ==> v >> (len as u64) == 0,
{
    let mut v: u64 = 0;
    let mut i: u32 = 0;
    let n: u32 = len as u32;
    assert forall|k: u64| k < 64 implies !#[trigger] u64_bit(0u64, k) by {
        assert(k < 64 ==> !u64_bit(0u64, k)) by (bit_vector);
    }
    assert((0u64 >> 0u64) == 0) by (bit_vector);
    while i < n
        invariant
            0 <= i <= n,
            n == len,
            !big_endian ==> n <= 64,
            big_endian ==> forall|k: u64|
                #![trigger u64_bit(v, k)]
                k < 64 ==> u64_bit(v, k) == (k < i && wire_bit(data@, start, true, i - 1 - k)),
            !big_endian ==> forall|k: u64|
                #![trigger u64_bit(v, k)]
                k < 64 ==> u64_bit(v, k) == (k < i && wire_bit(data@, start, false, k as int)),
            i < 64 ==> v >> (i as u64) == 0,
        decreases n - i,
    {
        let ghost old_v = v;
        if big_endian {
            let m: u32 = (start / 8) as u32 * 8 + (7 - (start % 8) as u32) + i;
            let b = bit_at(data, (m / 8) as usize, 7 - m % 8);
            v = (v << 1) | b;
            proof {
                assert forall|k: u64| k < 64 implies #[trigger] u64_bit(v, k) == (k < i + 1
                    && wire_bit(data@, start, true, i - k)) by {
                    lemma_be_step(old_v, b, k);
                }
                if i < 64 {
                    lemma_be_bound(old_v, b, i as u64);
                }
            }
        } else {
            let idx: u32 = start as u32 + i;
            let b = bit_at(data, (idx / 8) as usize, idx % 8);
            v = v | (b << i);
            proof {
                assert forall|k: u64| k < 64 implies #[trigger] u64_bit(v, k) == (k < i + 1
                    && wire_bit(data@, start, false, k as int)) by {
                    lemma_le_step(old_v, b, i as u64, k);
                }
                lemma_le_bound(old_v, b, i as u64);
            }
        }
        i = i + 1;
    }
    v
}

/// The raw field value, sign-extended if the signal is signed.
pub open spec fn spec_sign_extend(raw: u64, len: u16, signed: bool) -> int {
    if signed && 0 < len < 64 && u64_bit(raw, (len - 1) as u64) {
        raw - vstd::arithmetic::power2::pow2(len as nat)
    } else {
        (raw as i64) as int
    }
}

/// What [`decode_raw`] yields for a signal over a payload: the field read with
/// [`extracts`], then sign-extended.
pub open spec fn decodes_to(r: i64, sig: SignalDef, data: Seq<u8>) -> bool {
    exists|raw: u64|
        extracts(raw, data, sig.start, sig.len as nat, sig.big_endian) && r as int
            == spec_sign_extend(raw, sig.len, sig.signed)
}


/// The raw field value, sign-extended if the signal is signed.
pub fn decode_raw(sig: &SignalDef, data: &[u8]) -> (r: i64)
    requires
        !sig.big_endian ==> sig.len <= 64,
    ensures
        decodes_to(r, *sig, data@),
{
    let raw = extract(data, sig.start, sig.len, sig.big_endian);
    let l: u64 = sig.len as u64;
    let r: i64 = if sig.signed && l > 0 && l < 64 && (raw >> (l - 1)) & 1 == 1 {
        proof {
            vstd::bits::lemma_u64_pow2_no_overflow(l as nat);
            vstd::bits::lemma_u64_shl_is_mul(1u64, l);
            assert((0 < l && l < 64 && raw >> l == 0 && (raw >> ((l - 1) as u64)) & 1u64 == 1u64)
                ==> ((raw | (0xFFFF_FFFF_FFFF_FFFFu64 << l)) as i64) as int == raw as int - (1u64
                << l) as int) by (bit_vector);
        }
        (raw | (u64::MAX << l)) as i64
    } else {
        raw as i64
    };
    assert(r as int == spec_sign_extend(raw, sig.len, sig.signed));
    r
}

// ---------------------------------------------------------------------------
// Writing.

proof fn lemma_put_bits_len(data: Seq<u8>, start: u16, len: u16, be: bool, raw: u64, n: nat)
    ensures
        put_bits(data, start, len, be, raw, n).len() == data.len(),
    decreases n,
{
    if n > 0 {
        lemma_put_bits_len(data, start, len, be, raw, (n - 1) as nat);
    }
}

/// Writing the first `n` wire bits sets exactly the bits at linear indices
/// `first .. first + n` that lie inside the payload, and leaves every other
/// bit as it was.
pub proof fn lemma_put_bits(data: Seq<u8>, start: u16, len: u16, be: bool, raw: u64, n: nat)
    requires
        n <= len,
        len <= 64,
    ensures
        put_bits(data, start, len, be, raw, n).len() == data.len(),
        forall|j: int, p: int|
            0 <= j < data.len() && 0 <= p < 8 ==> #[trigger] byte_bit(
                put_bits(data, start, len, be, raw, n)[j],
                p as u8,
            ) == {
                let l = linear(j, p, be);
                if first_bit(start, be) <= l < first_bit(start, be) + n {
                    src_bit(raw, len, be, l - first_bit(start, be)) == 1u8
                } else {
                    byte_bit(data[j], p as u8)
                }
            },
    decreases n,
{
    lemma_put_bits_len(data, start, len, be, raw, n);
    if n > 0 {
        lemma_put_bits(data, start, len, be, raw, (n - 1) as nat);
        let d = put_bits(data, start, len, be, raw, (n - 1) as nat);
        let first = first_bit(start, be);
        let l = first + (n - 1);
        let s = src_bit(raw, len, be, n - 1);
        let pos = bit_in_byte(l, be);
        assert(s <= 1) by {
            if be {
                lemma_src_bit(raw, (len - 1 - (n - 1)) as u64);
            } else {
                lemma_src_bit(raw, (n - 1) as u64);
            }
        }
        assert forall|j: int, p: int|
            0 <= j < data.len() && 0 <= p < 8 implies #[trigger] byte_bit(
            put_bits(data, start, len, be, raw, n)[j],
            p as u8,
        ) == {
            let lj = linear(j, p, be);
            if first <= lj < first + n {
                src_bit(raw, len, be, lj - first) == 1u8
            } else {
                byte_bit(data[j], p as u8)
            }
        } by {
            let lj = linear(j, p, be);
            if j == l / 8 && l / 8 < d.len() {
                lemma_set_bit(d[j], pos as u8, s, p as u8);
                if p == pos {
                    assert(lj == l);
                } else {
                    assert(lj != l);
                }
            } else {
                assert(lj != l);
            }
        }
    }
}

/// The bits a field occupies all lie inside a payload of `size` bytes exactly
/// when its last one does.
pub open spec fn spec_last_byte(start: u16, len: u16, big_endian: bool) -> int {
    if len == 0 {
        0
    } else {
        (first_bit(start, big_endian) + len - 1) / 8
    }
}

/// The highest byte index this signal touches, for bounds checking.
pub fn last_byte(sig: &SignalDef) -> (r: usize)
    ensures
        r == spec_last_byte(sig.start, sig.len, sig.big_endian),
{
    if sig.len == 0 {
        return 0;
    }
    let last: u32 = sig.len as u32 - 1;
    if sig.big_endian {
        let m: u32 = (sig.start / 8) as u32 * 8 + (7 - (sig.start % 8) as u32) + last;
        (m / 8) as usize
    } else {
        ((sig.start as u32 + last) / 8) as usize
    }
}

/// Write `raw`'s field into `data`; bits outside `data` are dropped.
pub fn insert(data: &mut Vec<u8>, start: u16, len: u16, big_endian: bool, raw: u64)
    requires
        len <= 64,
    ensures
        final(data)@ == put_field(old(data)@, start, len, big_endian, raw),
        final(data)@.len() == old(data)@.len(),
{
    let n: u32 = len as u32;
    let mut i: u32 = 0;
    while i < n
        invariant
            0 <= i <= n,
            n == len,
            len <= 64,
            data@ == put_bits(old(data)@, start, len, big_endian, raw, i as nat),
            data@.len() == old(data)@.len(),
        decreases n - i,
    {
        proof {
            lemma_put_bits_len(old(data)@, start, len, big_endian, raw, i as nat);
        }
        let (byte, bit, src) = if big_endian {
            let m: u32 = (start / 8) as u32 * 8 + (7 - (start % 8) as u32) + i;
            let s: u64 = (raw >> (n - 1 - i)) & 1;
            ((m / 8) as usize, 7 - (m % 8), s)
        } else {
            let idx: u32 = start as u32 + i;
            let s: u64 = (raw >> i) & 1;
            ((idx / 8) as usize, idx % 8, s)
        };
        proof {
            if big_endian {
                lemma_src_bit(raw, (n - 1 - i) as u64);
            } else {
                lemma_src_bit(raw, i as u64);
            }
        }
        if byte < data.len() {
            let p: u8 = bit as u8;
            let s8: u8 = src as u8;
            let old_b: u8 = data[byte];
            let new_b: u8 = (old_b & !(1u8 << p)) | (s8 << p);
            data.set(byte, new_b);
        }
        i = i + 1;
        proof {
            lemma_put_bits_len(old(data)@, start, len, big_endian, raw, i as nat);
        }
    }
}

// ---------------------------------------------------------------------------
// The round trip.

/// Writing a field and reading it back gives the written value's low `len`
/// bits, whatever the payload held before, provided the field fits inside
/// the payload.
pub proof fn lemma_roundtrip_bits(data: Seq<u8>, start: u16, len: u16, be: bool, raw: u64, v: u64)
    requires
        len <= 64,
        spec_last_byte(start, len, be) < data.len(),
        extracts(v, put_field(data, start, len, be, raw), start, len as nat, be),
    ensures
        forall|k: u64| k < 64 ==> #[trigger] u64_bit(v, k) == (k < len && u64_bit(raw, k)),
{
    let d = put_field(data, start, len, be, raw);
    lemma_put_bits(data, start, len, be, raw, len as nat);
    let first = first_bit(start, be);
    assert forall|i: int| 0 <= i < len implies #[trigger] wire_bit(d, start, be, i) == (src_bit(
        raw,
        len,
        be,
        i,
    ) == 1u8) by {
        let l = first + i;
        let j = l / 8;
        let p = bit_in_byte(l, be);
        assert(j <= spec_last_byte(start, len, be));
        assert(linear(j, p, be) == l);
        assert(byte_bit(d[j], p as u8) == (src_bit(raw, len, be, l - first) == 1u8));
    }
    assert forall|k: u64| k < 64 implies #[trigger] u64_bit(v, k) == (k < len && u64_bit(raw, k)) by {
        if k < len {
            if be {
                let i = len - 1 - k;
                assert(wire_bit(d, start, be, i) == (src_bit(raw, len, be, i) == 1u8));
                lemma_src_bit(raw, k);
            } else {
                assert(wire_bit(d, start, be, k as int) == (src_bit(raw, len, be, k as int)
                    == 1u8));
                lemma_src_bit(raw, k);
            }
        }
    }
}

/// The low `len` bits of a 64-bit value (all of them when `len` is 64).
pub open spec fn low_bits(raw: u64, len: u16) -> u64 {
    if len >= 64 {
        raw
    } else {
        raw & !(0xFFFF_FFFF_FFFF_FFFFu64 << len as u64)
    }
}

/// Writing a field touches only the field: reading the field back gives the
/// written value's low `len` bits, the payload keeps its length, and every bit
/// outside the field is as it was; a field bit past the payload's end is
/// dropped.
pub proof fn law_a_write_changes_only_its_field(data: Seq<u8>, start: u16, len: u16, be: bool, raw: u64, v: u64)
    requires
        len <= 64,
        spec_last_byte(start, len, be) < data.len(),
        extracts(v, put_field(data, start, len, be, raw), start, len as nat, be),
    ensures
        v == low_bits(raw, len),
        put_field(data, start, len, be, raw).len() == data.len(),
        forall|j: int, p: int|
            0 <= j < data.len() && 0 <= p < 8 && !(first_bit(start, be) <= linear(j, p, be) < first_bit(start, be)
                + len) ==> #[trigger] byte_bit(put_field(data, start, len, be, raw)[j], p as u8) == byte_bit(
                data[j],
                p as u8,
            ),
{
    lemma_put_bits(data, start, len, be, raw, len as nat);
    lemma_roundtrip_bits(data, start, len, be, raw, v);
    let m = low_bits(raw, len);
    let l: u64 = len as u64;
    assert forall|k: u64| k < 64 implies #[trigger] u64_bit(v, k) == u64_bit(m, k) by {
        if len < 64 {
            assert((k < 64 && l < 64) ==> u64_bit(raw & (!(0xFFFF_FFFF_FFFF_FFFFu64 << l)), k) == (k < l && u64_bit(
                raw,
                k,
            ))) by (bit_vector);
        }
    }
    lemma_bits_equal(v, m);
}

/// The raw range a field of this width and signedness can hold.
pub open spec fn fits_raw(raw: int, len: u16, signed: bool) -> bool {
    if signed {
        -vstd::arithmetic::power2::pow2((len - 1) as nat) <= raw
            < vstd::arithmetic::power2::pow2((len - 1) as nat)
    } else {
        0 <= raw < vstd::arithmetic::power2::pow2(len as nat)
    }
}

/// Encoding then decoding a signal gives back the raw value written, for every
/// raw value the field can represent, whatever the payload held before. (A
/// signed field needs at least one bit: its sign.)
pub proof fn law_a_field_reads_back_what_was_written(data: Seq<u8>, sig: SignalDef, raw: i64, r: i64)
    requires
        sig.len <= 64,
        sig.signed ==> sig.len > 0,
        spec_last_byte(sig.start, sig.len, sig.big_endian) < data.len(),
        fits_raw(raw as int, sig.len, sig.signed),
        decodes_to(r, sig, put_field(data, sig.start, sig.len, sig.big_endian, raw as u64)),
    ensures
        r == raw,
{
    if sig.len == 0 || sig.len == 64 {
        lemma_roundtrip_edges(data, sig, raw, r);
    } else {
        lemma_roundtrip_inner(data, sig, raw, r);
    }
}

/// The round trip for an empty field (which holds only 0) and a full-width
/// one (which holds every 64-bit value).
proof fn lemma_roundtrip_edges(data: Seq<u8>, sig: SignalDef, raw: i64, r: i64)
    requires
        sig.len == 0 || sig.len == 64,
        sig.signed ==> sig.len > 0,
        spec_last_byte(sig.start, sig.len, sig.big_endian) < data.len(),
        fits_raw(raw as int, sig.len, sig.signed),
        decodes_to(r, sig, put_field(data, sig.start, sig.len, sig.big_endian, raw as u64)),
    ensures
        r == raw,
{
    let d = put_field(data, sig.start, sig.len, sig.big_endian, raw as u64);
    let v = choose|v: u64|
        extracts(v, d, sig.start, sig.len as nat, sig.big_endian) && r as int == spec_sign_extend(
            v,
            sig.len,
            sig.signed,
        );
    lemma_roundtrip_bits(data, sig.start, sig.len, sig.big_endian, raw as u64, v);
    vstd::arithmetic::power2::lemma2_to64();
    if sig.len == 0 {
        assert forall|k: u64| k < 64 implies #[trigger] u64_bit(v, k) == u64_bit(0u64, k) by {
            assert(k < 64 ==> !u64_bit(0u64, k)) by (bit_vector);
        }
        lemma_bits_equal(v, 0u64);
    } else {
        let u: u64 = raw as u64;
        assert forall|k: u64| k < 64 implies #[trigger] u64_bit(v, k) == u64_bit(u, k) by {}
        lemma_bits_equal(v, u);
        assert((raw as u64) as i64 == raw) by (bit_vector);
    }
}

proof fn lemma_roundtrip_inner(data: Seq<u8>, sig: SignalDef, raw: i64, r: i64)
    requires
        0 < sig.len < 64,
        spec_last_byte(sig.start, sig.len, sig.big_endian) < data.len(),
        fits_raw(raw as int, sig.len, sig.signed),
        decodes_to(r, sig, put_field(data, sig.start, sig.len, sig.big_endian, raw as u64)),
    ensures
        r == raw,
{
    let d = put_field(data, sig.start, sig.len, sig.big_endian, raw as u64);
    let v = choose|v: u64|
        extracts(v, d, sig.start, sig.len as nat, sig.big_endian) && r as int == spec_sign_extend(
            v,
            sig.len,
            sig.signed,
        );
    lemma_roundtrip_bits(data, sig.start, sig.len, sig.big_endian, raw as u64, v);
    let l: u64 = sig.len as u64;
    let u: u64 = raw as u64;
    // v is u with the bits at and above l cleared.
    let mask: u64 = !(0xFFFF_FFFF_FFFF_FFFFu64 << l);
    assert(l < 64 ==> (1u64 << l) >= 1) by (bit_vector);
    assert forall|k: u64| k < 64 implies #[trigger] u64_bit(v, k) == u64_bit(u & mask, k) by {
        assert((k < 64 && l < 64) ==> u64_bit(u & (!(0xFFFF_FFFF_FFFF_FFFFu64 << l)), k) == (k < l && u64_bit(
            u,
            k,
        ))) by (bit_vector);
    }
    lemma_bits_equal(v, u & mask);
    vstd::bits::lemma_u64_pow2_no_overflow(l as nat);
    vstd::bits::lemma_u64_shl_is_mul(1u64, l);
    vstd::arithmetic::power2::lemma_pow2_pos(l as nat);
    vstd::arithmetic::power2::lemma_pow2_unfold(l as nat);
    if sig.signed {
        let h: u64 = (l - 1) as u64;
        vstd::bits::lemma_u64_pow2_no_overflow(h as nat);
        vstd::bits::lemma_u64_shl_is_mul(1u64, h);
        assert(1u64 << l == 2 * (1u64 << h)) by (bit_vector)
            requires
                0 < l < 64,
                h == l - 1,
        ;
        if raw < 0 {
            assert((0 < l && l < 64 && h == l - 1 && (raw as int) >= -((1u64 << h) as int) && (raw
                as int) < 0) ==> (u64_bit((raw as u64) & !(0xFFFF_FFFF_FFFF_FFFFu64 << l), h) && ((((raw as u64)
                & !(0xFFFF_FFFF_FFFF_FFFFu64 << l)) as int) - (1u64 << l) as int == raw as int))) by (bit_vector);
        } else {
            assert((0 < l && l < 64 && h == l - 1 && (raw as int) < ((1u64 << h) as int) && (raw
                as int) >= 0) ==> (!u64_bit((raw as u64) & !(0xFFFF_FFFF_FFFF_FFFFu64 << l), h) && (((raw as u64)
                & !(0xFFFF_FFFF_FFFF_FFFFu64 << l)) as int == raw as int) && ((raw as u64) as i64) == raw)) by (bit_vector);
            assert((raw as u64 & mask) as i64 == raw);
        }
    } else {
        assert((0 < l && l < 64 && (raw as int) < ((1u64 << l) as int) && (raw as int) >= 0) ==> (((
            raw as u64) & !(0xFFFF_FFFF_FFFF_FFFFu64 << l)) as int == raw as int)) by (bit_vector);
        assert((raw as u64 & mask) as i64 == raw);
    }
}

// ---------------------------------------------------------------------------
// Encoding a message.

/// A signal's value, as handed to [`encode`]: already converted to a raw
/// field value, or the reason it could not be.
#[derive(Clone, Copy, Debug, PartialEq, Eq)]
pub enum FieldValue {
    /// No value was given for the signal.
    Absent,
    /// The physical value lies outside what the field can represent.
    Unfit,
    /// The raw value to write.
    Raw(i64),
}

#[derive(Clone, Debug, PartialEq, Eq)]
pub enum CodecError {
    /// No value for this signal.
    Missing(String),
    /// The value does not fit this signal's field.
    OutOfRange { sig: String },
    /// The signal extends past the end of the message.
    Overrun { sig: String, len: u16, size: usize },
}

/// Why the signal at index `k` cannot be encoded, if it cannot, in the order
/// the checks are made: a missing value, then the field running past the end
/// of the message, then a value the field cannot hold.
pub open spec fn signal_problem(msg: MessageDef, values: Seq<FieldValue>, k: int) -> Option<int> {
    let sig = msg.signals[k];
    if values[k] is Absent {
        Some(0)
    } else if spec_last_byte(sig.start, sig.len, sig.big_endian) >= msg.len {
        Some(1)
    } else if values[k] is Unfit {
        Some(2)
    } else {
        None
    }
}

/// The payload [`encode`] builds from the active signals `act` (indices into
/// `msg.signals`), written in order into a zeroed payload.
pub open spec fn encoded(msg: MessageDef, values: Seq<FieldValue>, act: Seq<int>) -> Seq<u8>
    decreases act.len(),
{
    if act.len() == 0 {
        Seq::new(msg.len as nat, |_j: int| 0u8)
    } else {
        let prev = encoded(msg, values, act.drop_last());
        let k = act.last();
        let sig = msg.signals[k];
        put_field(prev, sig.start, sig.len, sig.big_endian, (values[k]->Raw_0) as u64)
    }
}

/// An encoded payload is as long as its message, whatever is written into it.
pub proof fn law_a_payload_is_as_long_as_its_message(msg: MessageDef, values: Seq<FieldValue>, act: Seq<int>)
    ensures
        encoded(msg, values, act).len() == msg.len,
    decreases act.len(),
{
    if act.len() > 0 {
        law_a_payload_is_as_long_as_its_message(msg, values, act.drop_last());
        let prev = encoded(msg, values, act.drop_last());
        let sig = msg.signals[act.last()];
        lemma_put_bits_len(prev, sig.start, sig.len, sig.big_endian, (values[act.last()]->Raw_0) as u64, sig.len as nat);
    }
}

/// Whether `e` is the error [`encode`] reports for the signal at index `k`,
/// given the kind of problem that [`signal_problem`] found.
pub open spec fn is_error_for(e: CodecError, msg: MessageDef, k: int, kind: int) -> bool {
    let sig = msg.signals[k];
    if kind == 0 {
        e matches CodecError::Missing(n) && n@ == sig.name@
    } else if kind == 1 {
        e matches CodecError::Overrun { sig: n, len, size } && n@ == sig.name@ && len == sig.len
            && size == msg.len
    } else {
        e matches CodecError::OutOfRange { sig: n } && n@ == sig.name@
    }
}

/// The encode stops at position `i` of the active signals `act`: every
/// earlier one is fine, and this one has a problem.
pub open spec fn stops_at(msg: MessageDef, values: Seq<FieldValue>, act: Seq<int>, i: int) -> bool {
    &&& 0 <= i < act.len()
    &&& forall|i2: int| 0 <= i2 < i ==> signal_problem(msg, values, #[trigger] act[i2]) is None
    &&& signal_problem(msg, values, act[i]) is Some
}

/// `e` is the error of the first active signal that cannot be encoded.
pub open spec fn fails_with(msg: MessageDef, values: Seq<FieldValue>, act: Seq<int>, e: CodecError) -> bool {
    exists|i: int|
        #[trigger] stops_at(msg, values, act, i) && is_error_for(
            e,
            msg,
            act[i],
            signal_problem(msg, values, act[i])->0,
        )
}

/// The raw value of signal `k`, or the error that stops the encode there.
fn check_signal(msg: &MessageDef, values: &Vec<FieldValue>, k: usize) -> (r: Result<i64, CodecError>)
    requires
        values.len() == msg.signals.len(),
        k < msg.signals.len(),
    ensures
        match r {
            Ok(raw) => signal_problem(*msg, values@, k as int) is None && values@[k as int] == FieldValue::Raw(raw),
            Err(e) => signal_problem(*msg, values@, k as int) is Some && is_error_for(e, *msg, k as int, signal_problem(*msg, values@, k as int)->0),
        },
{
    let sig = &msg.signals[k];
    if let FieldValue::Absent = values[k] {
        return Err(CodecError::Missing(sig.name.clone()));
    }
    if last_byte(sig) >= msg.len {
        return Err(CodecError::Overrun { sig: sig.name.clone(), len: sig.len, size: msg.len });
    }
    match values[k] {
        FieldValue::Raw(v) => Ok(v),
        _ => Err(CodecError::OutOfRange { sig: sig.name.clone() }),
    }
}

/// Build the payload for a message from raw signal values.
///
/// `values[k]` is the value of `msg.signals[k]`; `selector` is the raw value of
/// the multiplexor, which decides which signals belong in the frame. The first
/// active signal that cannot be encoded stops the encode with its error;
/// otherwise every active signal is written, in order, into a zeroed payload of
/// the message's length.
pub fn encode(msg: &MessageDef, selector: Option<u64>, values: &Vec<FieldValue>) -> (r: Result<
    Vec<u8>,
    CodecError,
>)
    requires
        values.len() == msg.signals.len(),
        forall|i: int|
            0 <= i < spec_active(*msg, selector).len() ==> msg.signals[#[trigger] spec_active(*msg, selector)[i]].len
                <= 64,
    ensures
        ({
            let act = spec_active(*msg, selector);
            match r {
                Ok(data) => (forall|i: int|
                    0 <= i < act.len() ==> signal_problem(*msg, values@, #[trigger] act[i]) is None)
                    && data@ == encoded(*msg, values@, act),
                Err(e) => fails_with(*msg, values@, act, e),
            }
        }),
{
    let act = active_signals(msg, selector);
    let ghost spec_act = spec_active(*msg, selector);
    proof {
        lemma_active_prefix_bounds(*msg, selector, msg.signals.len() as nat);
    }
    let mut data: Vec<u8> = Vec::new();
    let mut z: usize = 0;
    while z < msg.len
        invariant
            0 <= z <= msg.len,
            data@ == Seq::new(z as nat, |_j: int| 0u8),
        decreases msg.len - z,
    {
        data.push(0u8);
        z = z + 1;
        assert(data@ =~= Seq::new(z as nat, |_j: int| 0u8));
    }
    assert(spec_act.subrange(0, 0) =~= Seq::<int>::empty());
    assert(data@ == encoded(*msg, values@, spec_act.subrange(0, 0)));
    let mut i: usize = 0;
    while i < act.len()
        invariant
            0 <= i <= act.len(),
            spec_act == spec_active(*msg, selector),
            act@.len() == spec_act.len(),
            forall|j: int| 0 <= j < act@.len() ==> act@[j] as int == #[trigger] spec_act[j],
            forall|j: int| 0 <= j < act@.len() ==> (#[trigger] act@[j]) < msg.signals.len(),
            values.len() == msg.signals.len(),
            forall|j: int| 0 <= j < spec_act.len() ==> msg.signals[#[trigger] spec_act[j]].len <= 64,
            forall|i2: int|
                0 <= i2 < i ==> signal_problem(*msg, values@, #[trigger] spec_act[i2]) is None,
            data@ == encoded(*msg, values@, spec_act.subrange(0, i as int)),
        decreases act.len() - i,
    {
        let k = act[i];
        assert(spec_act[i as int] == k as int);
        let sig = &msg.signals[k];
        let raw = match check_signal(msg, values, k) {
            Ok(raw) => raw,
            Err(e) => {
                assert(stops_at(*msg, values@, spec_act, i as int));
                return Err(e);
            },
        };
        insert(&mut data, sig.start, sig.len, sig.big_endian, raw as u64);
        i = i + 1;
        proof {
            assert(spec_act.subrange(0, i as int).drop_last() =~= spec_act.subrange(
                0,
                (i - 1) as int,
            ));
        }
    }
    assert(spec_act.subrange(0, act.len() as int) =~= spec_act);
    Ok(data)
}


// ---------------------------------------------------------------------------
// The round trip through a whole message.

/// The byte holding wire bit `i` of a signal's field.
pub open spec fn bit_byte(s: SignalDef, i: int) -> int {
    (first_bit(s.start, s.big_endian) + i) / 8
}

/// Which bit of that byte it is.
pub open spec fn bit_pos(s: SignalDef, i: int) -> int {
    bit_in_byte(first_bit(s.start, s.big_endian) + i, s.big_endian)
}

/// Whether bit `p` of byte `j` lies in a signal's field.
pub open spec fn in_field(s: SignalDef, j: int, p: int) -> bool {
    first_bit(s.start, s.big_endian) <= linear(j, p, s.big_endian) < first_bit(s.start, s.big_endian) + s.len
}

/// No bit of `a`'s field lies in `b`'s: writing either leaves the other be.
pub open spec fn apart(a: SignalDef, b: SignalDef) -> bool {
    forall|i: int| 0 <= i < a.len ==> !in_field(b, #[trigger] bit_byte(a, i), bit_pos(a, i))
}

/// Two payloads hold the same bits in a signal's field.
pub open spec fn same_field(d1: Seq<u8>, d2: Seq<u8>, s: SignalDef) -> bool {
    forall|i: int| 0 <= i < s.len ==> #[trigger] wire_bit(d1, s.start, s.big_endian, i) == wire_bit(d2, s.start, s.big_endian, i)
}

/// Writing a field leaves the bits of every field apart from it as they were.
proof fn lemma_writing_leaves_others(d: Seq<u8>, f: SignalDef, g: SignalDef, raw: u64)
    requires
        g.len <= 64,
        apart(f, g),
    ensures
        same_field(put_field(d, g.start, g.len, g.big_endian, raw), d, f),
        put_field(d, g.start, g.len, g.big_endian, raw).len() == d.len(),
{
    lemma_put_bits(d, g.start, g.len, g.big_endian, raw, g.len as nat);
    let w = put_field(d, g.start, g.len, g.big_endian, raw);
    assert forall|i: int| 0 <= i < f.len implies #[trigger] wire_bit(w, f.start, f.big_endian, i) == wire_bit(
        d,
        f.start,
        f.big_endian,
        i,
    ) by {
        let l = first_bit(f.start, f.big_endian) + i;
        let j = l / 8;
        let p = bit_in_byte(l, f.big_endian);
        assert(j == bit_byte(f, i) && p == bit_pos(f, i));
        assert(!in_field(g, j, p));
        if 0 <= l && j < d.len() {
            assert(0 <= p < 8);
            assert(byte_bit(w[j], p as u8) == byte_bit(d[j], p as u8));
        }
    }
}

/// A reading of a field depends on the field's bits alone.
proof fn lemma_reading_sees_only_the_field(d1: Seq<u8>, d2: Seq<u8>, s: SignalDef, r: i64)
    requires
        same_field(d1, d2, s),
        decodes_to(r, s, d1),
    ensures
        decodes_to(r, s, d2),
{
    let v = choose|v: u64| extracts(v, d1, s.start, s.len as nat, s.big_endian) && r as int == spec_sign_extend(
        v,
        s.len,
        s.signed,
    );
    assert forall|k: u64| k < 64 implies #[trigger] u64_bit(v, k) == (k < s.len && field_bit(
        d2,
        s.start,
        s.len as nat,
        s.big_endian,
        k as int,
    )) by {
        if k < s.len {
            if s.big_endian {
                assert(wire_bit(d1, s.start, s.big_endian, s.len - 1 - k) == wire_bit(d2, s.start, s.big_endian, s.len - 1 - k));
            } else {
                assert(wire_bit(d1, s.start, s.big_endian, k as int) == wire_bit(d2, s.start, s.big_endian, k as int));
            }
        }
    }
    assert(extracts(v, d2, s.start, s.len as nat, s.big_endian));
}

/// Every payload the encode builds is as long as the message.
proof fn lemma_encoded_len(msg: MessageDef, values: Seq<FieldValue>, act: Seq<int>)
    requires
        forall|i: int| 0 <= i < act.len() ==> 0 <= #[trigger] act[i] < msg.signals.len() && msg.signals[act[i]].len <= 64,
    ensures
        encoded(msg, values, act).len() == msg.len,
    decreases act.len(),
{
    if act.len() > 0 {
        let prev = act.drop_last();
        assert forall|i: int| 0 <= i < prev.len() implies 0 <= #[trigger] prev[i] < msg.signals.len() && msg.signals[prev[i]].len <= 64 by {
            assert(prev[i] == act[i]);
        }
        lemma_encoded_len(msg, values, prev);
        let sig = msg.signals[act.last()];
        lemma_put_bits_len(encoded(msg, values, prev), sig.start, sig.len, sig.big_endian, (values[act.last()]->Raw_0) as u64, sig.len as nat);
    }
}

/// The signals written after position `m` leave the field of `act[m]` as it
/// was right after it was written.
proof fn lemma_later_writes_leave_it(msg: MessageDef, values: Seq<FieldValue>, act: Seq<int>, m: int, n: int)
    requires
        0 <= m < n <= act.len(),
        forall|i: int| 0 <= i < act.len() ==> 0 <= #[trigger] act[i] < msg.signals.len() && msg.signals[act[i]].len <= 64,
        forall|i: int| m < i < act.len() ==> apart(msg.signals[act[m]], msg.signals[#[trigger] act[i]]),
    ensures
        same_field(encoded(msg, values, act.take(n)), encoded(msg, values, act.take(m + 1)), msg.signals[act[m]]),
    decreases n - m,
{
    let f = msg.signals[act[m]];
    if n == m + 1 {
        assert(same_field(encoded(msg, values, act.take(n)), encoded(msg, values, act.take(m + 1)), f));
    } else {
        lemma_later_writes_leave_it(msg, values, act, m, n - 1);
        let t = act.take(n);
        assert(t.drop_last() =~= act.take(n - 1));
        assert(t.last() == act[n - 1]);
        let g = msg.signals[act[n - 1]];
        lemma_writing_leaves_others(encoded(msg, values, act.take(n - 1)), f, g, (values[act[n - 1]]->Raw_0) as u64);
    }
}

/// The last position of `k` in `act`, when it occurs there.
proof fn lemma_last_occurrence(act: Seq<int>, k: int) -> (m: int)
    requires
        act.contains(k),
    ensures
        0 <= m < act.len(),
        act[m] == k,
        forall|i: int| m < i < act.len() ==> act[i] != k,
    decreases act.len(),
{
    if act.last() == k {
        (act.len() - 1) as int
    } else {
        let j = choose|j: int| 0 <= j < act.len() && act[j] == k;
        assert(act.drop_last()[j] == k);
        let m = lemma_last_occurrence(act.drop_last(), k);
        assert(act[m] == act.drop_last()[m]);
        assert forall|i: int| m < i < act.len() implies act[i] != k by {
            if i < act.len() - 1 {
                assert(act[i] == act.drop_last()[i]);
            }
        }
        m
    }
}

/// Decoding a signal from a payload [`encode`] built gives back the raw value
/// it was given, whatever the other signals hold, as long as no other active
/// signal's field overlaps its own. (A signed field needs at least one bit:
/// its sign.)
pub proof fn law_decoding_reads_back_what_was_encoded(
    msg: MessageDef,
    values: Seq<FieldValue>,
    act: Seq<int>,
    k: int,
    r: i64,
)
    requires
        forall|i: int| 0 <= i < act.len() ==> 0 <= #[trigger] act[i] < msg.signals.len() && msg.signals[act[i]].len <= 64,
        forall|i: int| 0 <= i < act.len() ==> signal_problem(msg, values, #[trigger] act[i]) is None,
        act.contains(k),
        forall|i: int| 0 <= i < act.len() && act[i] != k ==> apart(msg.signals[k], msg.signals[#[trigger] act[i]]),
        values[k] matches FieldValue::Raw(raw) && fits_raw(raw as int, msg.signals[k].len, msg.signals[k].signed),
        msg.signals[k].signed ==> msg.signals[k].len > 0,
        decodes_to(r, msg.signals[k], encoded(msg, values, act)),
    ensures
        r == values[k]->Raw_0,
{
    let sig = msg.signals[k];
    let m = lemma_last_occurrence(act, k);
    assert forall|i: int| m < i < act.len() implies apart(msg.signals[act[m]], msg.signals[#[trigger] act[i]]) by {
        assert(act[i] != k);
    }
    assert(act.take(act.len() as int) =~= act);
    lemma_later_writes_leave_it(msg, values, act, m, act.len() as int);
    let upto = act.take(m + 1);
    let before = act.take(m);
    assert(upto.drop_last() =~= before);
    assert(upto.last() == k);
    assert forall|i: int| 0 <= i < before.len() implies 0 <= #[trigger] before[i] < msg.signals.len() && msg.signals[before[i]].len <= 64 by {
        assert(before[i] == act[i]);
    }
    lemma_encoded_len(msg, values, before);
    assert(signal_problem(msg, values, act[m]) is None);
    lemma_reading_sees_only_the_field(encoded(msg, values, act), encoded(msg, values, upto), sig, r);
    law_a_field_reads_back_what_was_written(encoded(msg, values, before), sig, values[k]->Raw_0, r);
}

} // verus!
