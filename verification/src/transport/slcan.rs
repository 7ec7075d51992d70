//! The Lawicel/slcan ASCII protocol (CANable in slcan firmware, USBtin, and
//! most cheap clones): the setup commands, the frame lines, and splitting
//! what the serial port delivers into lines.

use vstd::prelude::*;

use crate::canid::{self, Id};
use crate::text::{dec_char, decimal, hex_char, hex_fixed, push_decimal, push_hex_fixed, push_str, string_of};
use super::{Frame, Payload, TransportError};

verus! {

/// slcan only offers this fixed ladder of bitrates; each has a one-character
/// code for the `S` command.
pub open spec fn rate_code_of(bitrate: u32) -> Option<u8> {
    if bitrate == 10_000 {
        Some(48u8)
    } else if bitrate == 20_000 {
        Some(49u8)
    } else if bitrate == 50_000 {
        Some(50u8)
    } else if bitrate == 100_000 {
        Some(51u8)
    } else if bitrate == 125_000 {
        Some(52u8)
    } else if bitrate == 250_000 {
        Some(53u8)
    } else if bitrate == 500_000 {
        Some(54u8)
    } else if bitrate == 800_000 {
        Some(55u8)
    } else if bitrate == 1_000_000 {
        Some(56u8)
    } else {
        None
    }
}

pub fn rate_code(bitrate: u32) -> (r: Option<u8>)
    ensures
        r == rate_code_of(bitrate),
        bitrate == 10_000 ==> r == Some(48u8),
        bitrate == 20_000 ==> r == Some(49u8),
        bitrate == 50_000 ==> r == Some(50u8),
        bitrate == 100_000 ==> r == Some(51u8),
        bitrate == 125_000 ==> r == Some(52u8),
        bitrate == 250_000 ==> r == Some(53u8),
        bitrate == 500_000 ==> r == Some(54u8),
        bitrate == 800_000 ==> r == Some(55u8),
        bitrate == 1_000_000 ==> r == Some(56u8),
{
    let rates: [u32; 9] = [
        10_000,
        20_000,
        50_000,
        100_000,
        125_000,
        250_000,
        500_000,
        800_000,
        1_000_000,
    ];
    let mut i: usize = 0;
    while i < 9
        invariant
            0 <= i <= 9,
            rates@ == seq![
                10_000u32,
                20_000u32,
                50_000u32,
                100_000u32,
                125_000u32,
                250_000u32,
                500_000u32,
                800_000u32,
                1_000_000u32,
            ],
            forall|j: int| 0 <= j < i ==> rates@[j] != bitrate,
        decreases 9 - i,
    {
        if rates[i] == bitrate {
            return Some(48 + i as u8);
        }
        i = i + 1;
    }
    None
}

/// The commands that bring the adapter onto the bus at a bitrate: close
/// (it may still be open from a previous run, and it rejects a bitrate change
/// while on the bus), set the rate, open.
pub fn setup_commands(bitrate: u32) -> (r: Result<Vec<Vec<u8>>, TransportError>)
    ensures
        match r {
            Ok(cmds) => rate_code_of(bitrate) is Some && cmds@.len() == 3 && cmds@[0]@ == seq![
                67u8,
                13u8,
            ] && cmds@[1]@ == seq![83u8, rate_code_of(bitrate)->0, 13u8] && cmds@[2]@ == seq![
                79u8,
                13u8,
            ],
            Err(e) => rate_code_of(bitrate) is None && e == TransportError::Bitrate(bitrate),
        },
{
    let code = match rate_code(bitrate) {
        Some(c) => c,
        None => {
            return Err(TransportError::Bitrate(bitrate));
        },
    };
    let mut cmds: Vec<Vec<u8>> = Vec::new();
    cmds.push(vec![67u8, 13u8]);
    cmds.push(vec![83u8, code, 13u8]);
    cmds.push(vec![79u8, 13u8]);
    Ok(cmds)
}

/// The command that takes the adapter off the bus.
pub fn close_command() -> (r: Vec<u8>)
    ensures
        r@ == seq![67u8, 13u8],
{
    vec![67u8, 13u8]
}

/// The value of an ASCII hex digit.
pub open spec fn hex_val(b: u8) -> Option<nat> {
    if 48 <= b <= 57 {
        Some((b - 48) as nat)
    } else if 65 <= b <= 70 {
        Some((b - 55) as nat)
    } else if 97 <= b <= 102 {
        Some((b - 87) as nat)
    } else {
        None
    }
}

pub open spec fn all_hex(s: Seq<u8>) -> bool {
    forall|i: int| 0 <= i < s.len() ==> (#[trigger] hex_val(s[i])) is Some
}

pub open spec fn hex_value(s: Seq<u8>) -> nat
    decreases s.len(),
{
    if s.len() == 0 {
        0
    } else {
        hex_value(s.drop_last()) * 16 + hex_val(s.last())->0
    }
}

/// What reading ASCII text as a base-16 number yields: one or more hex digits,
/// optionally after a single `+`.
pub open spec fn radix16(s: Seq<u8>) -> Option<nat> {
    if s.len() > 0 && s[0] == 43u8 {
        if s.len() > 1 && all_hex(s.drop_first()) {
            Some(hex_value(s.drop_first()))
        } else {
            None
        }
    } else if s.len() > 0 && all_hex(s) {
        Some(hex_value(s))
    } else {
        None
    }
}

/// The number of hex digits of the identifier in a line of kind `k`: eight
/// for the extended kinds `T` and `R`, three otherwise.
pub open spec fn id_digits(k: u8) -> int {
    if k == 84u8 || k == 82u8 {
        8
    } else {
        3
    }
}

/// The payload length a length digit announces; above 8 it is read as 8.
pub open spec fn announced_len(dc: u8) -> int {
    if dc - 48 <= 8 {
        dc - 48
    } else {
        8
    }
}

/// Whether the first `n` hex pairs of `hex` each read as a number.
pub open spec fn pairs_read(hex: Seq<u8>, n: int) -> bool {
    &&& hex.len() >= 2 * n
    &&& forall|i: int| 0 <= i < n ==> (#[trigger] radix16(hex.subrange(2 * i, 2 * i + 2))) is Some
}

/// The first `n` hex pairs of `hex` as bytes.
pub open spec fn pair_bytes(hex: Seq<u8>, n: int) -> Seq<u8> {
    Seq::new(n as nat, |i: int| radix16(hex.subrange(2 * i, 2 * i + 2))->0 as u8)
}

/// The frame a received line describes, as (identifier value, extended,
/// payload): `t1238AABB…` is kind, id, length, then the payload in hex. Status
/// replies and anything malformed describe none. A remote frame (`r`/`R`)
/// carries no payload, and a length above 8 is read as 8.
pub open spec fn spec_parse_line(line: Seq<u8>) -> Option<(u32, bool, Seq<u8>)> {
    if !vstd::utf8::valid_utf8(line) || line.len() < 1 {
        None
    } else {
        let k = line[0];
        let known = k == 116u8 || k == 84u8 || k == 114u8 || k == 82u8;
        let ext = k == 84u8 || k == 82u8;
        let remote = k == 114u8 || k == 82u8;
        let id_len = id_digits(k);
        if !known || line.len() < 2 + id_len {
            None
        } else {
            match radix16(line.subrange(1, 1 + id_len)) {
                None => None,
                Some(v) => {
                    let dc = line[1 + id_len];
                    if !(48 <= dc <= 57) {
                        None
                    } else {
                        let made = canid::spec_make(v as u32, ext);
                        let hex = line.subrange(2 + id_len, line.len() as int);
                        if remote {
                            Some((made.0, made.1, Seq::empty()))
                        } else if !pairs_read(hex, announced_len(dc)) {
                            None
                        } else {
                            Some((made.0, made.1, pair_bytes(hex, announced_len(dc))))
                        }
                    }
                },
            }
        }
    }
}

/// Whether bytes are valid UTF-8.
///
/// Trusted: calls `std::str::from_utf8`, which std documents as accepting
/// exactly the well-formed UTF-8 sequences.
#[verifier::external_body]
fn is_utf8(b: &[u8]) -> (r: bool)
    ensures
        r == vstd::utf8::valid_utf8(b@),
{
    std::str::from_utf8(b).is_ok()
}

fn hex_digit_value(b: u8) -> (r: Option<u8>)
    ensures
        match r {
            Some(v) => hex_val(b) == Some(v as nat) && v < 16,
            None => hex_val(b) is None,
        },
{
    if b >= 48 && b <= 57 {
        Some(b - 48)
    } else if b >= 65 && b <= 70 {
        Some(b - 55)
    } else if b >= 97 && b <= 102 {
        Some(b - 87)
    } else {
        None
    }
}

/// 16 to the power `n`.
pub open spec fn p16(n: nat) -> nat
    decreases n,
{
    if n == 0 {
        1
    } else {
        16 * p16((n - 1) as nat)
    }
}

proof fn lemma_p16_mono(a: nat, b: nat)
    requires
        a <= b,
    ensures
        p16(a) <= p16(b),
    decreases b,
{
    if a < b {
        lemma_p16_mono(a, (b - 1) as nat);
    }
}

proof fn lemma_hex_value_bound(s: Seq<u8>)
    requires
        all_hex(s),
    ensures
        hex_value(s) < p16(s.len()),
    decreases s.len(),
{
    if s.len() > 0 {
        let t = s.drop_last();
        assert(all_hex(t)) by {
            assert forall|i: int| 0 <= i < t.len() implies (#[trigger] hex_val(t[i])) is Some by {
                assert(t[i] == s[i]);
            }
        }
        lemma_hex_value_bound(t);
        assert(hex_val(s[s.len() - 1]) is Some);
        assert(hex_value(s) < p16(s.len())) by (nonlinear_arith)
            requires
                hex_value(s) == hex_value(t) * 16 + hex_val(s.last())->0,
                hex_value(t) < p16(t.len()),
                hex_val(s.last())->0 < 16,
                p16(s.len()) == 16 * p16(t.len()),
        ;
    }
}

/// Read ASCII hex text (at most 8 digits, optionally after a `+`) as a number.
fn parse_radix16(s: &[u8], from: usize, to: usize) -> (r: Option<u32>)
    requires
        from <= to <= s@.len(),
        to - from <= 8,
    ensures
        match r {
            Some(v) => radix16(s@.subrange(from as int, to as int)) == Some(v as nat),
            None => radix16(s@.subrange(from as int, to as int)) is None,
        },
{
    let ghost t = s@.subrange(from as int, to as int);
    let mut i = from;
    if i < to && s[i] == 43 {
        i = i + 1;
        if i == to {
            return None;
        }
    }
    let start = i;
    let ghost digits = s@.subrange(start as int, to as int);
    proof {
        if start > from {
            assert(t.drop_first() =~= digits);
        } else {
            assert(t =~= digits);
        }
    }
    if start == to {
        return None;
    }
    let mut v: u32 = 0;
    proof {
        if start > from {
            assert(t[0] == 43u8);
        } else {
            assert(t.len() > 0 ==> t[0] != 43u8);
        }
    }
    while i < to
        invariant
            from <= start <= i <= to <= s@.len(),
            start < to,
            to - from <= 8,
            t == s@.subrange(from as int, to as int),
            digits == s@.subrange(start as int, to as int),
            start > from ==> start == from + 1 && t[0] == 43u8 && t.drop_first() == digits,
            start == from ==> t == digits && t[0] != 43u8,
            all_hex(s@.subrange(start as int, i as int)),
            v as nat == hex_value(s@.subrange(start as int, i as int)),
        decreases to - i,
    {
        let ghost pre = s@.subrange(start as int, i as int);
        match hex_digit_value(s[i]) {
            Some(d) => {
                proof {
                    lemma_hex_value_bound(pre);
                    lemma_p16_mono(pre.len(), 7);
                    assert(p16(7) == 0x1000_0000) by {
                        reveal_with_fuel(p16, 8);
                    }
                }
                v = v * 16 + d as u32;
                i = i + 1;
                proof {
                    let now = s@.subrange(start as int, i as int);
                    assert(now.drop_last() =~= pre);
                    assert forall|j: int| 0 <= j < now.len() implies (#[trigger] hex_val(now[j])) is Some by {
                        if j < pre.len() {
                            assert(now[j] == pre[j]);
                        }
                    }
                }
            },
            None => {
                proof {
                    assert(hex_val(digits[i - start]) is None);
                    assert(!all_hex(digits));
                }
                return None;
            },
        }
    }
    Some(v)
}

fn ascii_digit(b: u8) -> (r: bool)
    ensures
        r == (48 <= b <= 57),
{
    b >= 48 && b <= 57
}

/// An I/O failure on the port, reported with the system's own words.
pub fn io_err(message: String) -> (e: TransportError)
    ensures
        e == TransportError::Other(message),
{
    TransportError::Other(message)
}

/// Why opening a serial port failed, as the serial library reports it.
#[derive(Clone, Copy, Debug, PartialEq, Eq, Structural)]
pub enum PortFailure {
    /// The device is not there.
    NoDevice,
    /// The system refused access.
    PermissionDenied,
    /// Anything else.
    Other,
}

/// The error a failed open is reported as: a missing device by its path, a
/// refused one with the usual fix, anything else in the library's words.
pub open spec fn spec_open_error(kind: PortFailure, path: Seq<char>, description: Seq<char>) -> (int, Seq<char>) {
    match kind {
        PortFailure::NoDevice => (0, path),
        PortFailure::PermissionDenied => (
            1,
            "no access to "@ + path + " (Linux: add yourself to the `dialout` group)"@,
        ),
        PortFailure::Other => (2, description),
    }
}

/// The error a failed open is reported as (see [`spec_open_error`]), as
/// (0 not found, 1 permission, 2 other; its text).
pub fn open_error(kind: PortFailure, path: &str, description: String) -> (e: TransportError)
    ensures
        match e {
            TransportError::NotFound(t) => spec_open_error(kind, path@, description@) == (0int, t@),
            TransportError::Permission(t) => spec_open_error(kind, path@, description@) == (1int, t@),
            TransportError::Other(t) => spec_open_error(kind, path@, description@) == (2int, t@),
            _ => false,
        },
{
    match kind {
        PortFailure::NoDevice => TransportError::NotFound(String::from_str(path)),
        PortFailure::PermissionDenied => {
            let mut t: Vec<char> = Vec::new();
            push_str(&mut t, "no access to ");
            push_str(&mut t, path);
            push_str(&mut t, " (Linux: add yourself to the `dialout` group)");
            TransportError::Permission(string_of(&t))
        },
        PortFailure::Other => TransportError::Other(description),
    }
}

/// Read a received line (without its `\r`) as a frame.
#[verifier::loop_isolation(false)]
pub fn parse_line(line: &[u8]) -> (r: Option<Frame>)
    ensures
        match spec_parse_line(line@) {
            None => r is None,
            Some((raw, ext, data)) => r is Some && r->0.id.value() == raw && r->0.id.is_ext() == ext
                && r->0.data@ == data && !r->0.echo,
        },
{
    if !is_utf8(line) || line.len() < 1 {
        return None;
    }
    let k = line[0];
    let known = k == 116u8 || k == 84u8 || k == 114u8 || k == 82u8;
    let ext = k == 84u8 || k == 82u8;
    let remote = k == 114u8 || k == 82u8;
    let id_len: usize = if ext {
        8
    } else {
        3
    };
    if !known || line.len() < 2 + id_len {
        return None;
    }
    let v = match parse_radix16(line, 1, 1 + id_len) {
        Some(v) => v,
        None => {
            return None;
        },
    };
    let dc = line[1 + id_len];
    if !ascii_digit(dc) {
        return None;
    }
    let dlc: usize = if dc - 48 <= 8 {
        (dc - 48) as usize
    } else {
        8
    };
    let id = match canid::make(v, ext) {
        Some(id) => id,
        None => {
            return None;
        },
    };
    if remote {
        let data = Payload::new(&[]);
        return Some(Frame { id, data, echo: false });
    }
    let base = 2 + id_len;
    let ghost hex = line@.subrange(base as int, line@.len() as int);
    if line.len() - base < 2 * dlc {
        return None;
    }
    let total = line.len();
    let mut bytes: Vec<u8> = Vec::new();
    let mut i: usize = 0;
    while i < dlc
        invariant
            total == line@.len(),
            0 <= i <= dlc,
            dlc <= 8,
            base + 2 * dlc <= line@.len(),
            hex == line@.subrange(base as int, line@.len() as int),
            bytes@.len() == i,
            forall|j: int|
                0 <= j < i ==> (#[trigger] radix16(hex.subrange(2 * j, 2 * j + 2))) is Some
                    && bytes@[j] == radix16(hex.subrange(2 * j, 2 * j + 2))->0 as u8,
        decreases dlc - i,
    {
        assert(base + 2 * i + 2 <= line@.len());
        let from = base + 2 * i;
        proof {
            assert(line@.subrange(from as int, from + 2) =~= hex.subrange(2 * i, 2 * i + 2));
        }
        match parse_radix16(line, from, from + 2) {
            Some(b) => {
                proof {
                    let pair = hex.subrange(2 * i, 2 * i + 2);
                    assert(p16(2) == 256) by {
                        reveal_with_fuel(p16, 3);
                    }
                    if pair[0] == 43u8 {
                        lemma_hex_value_bound(pair.drop_first());
                        lemma_p16_mono(1, 2);
                    } else {
                        lemma_hex_value_bound(pair);
                    }
                }
                bytes.push(b as u8);
            },
            None => {
                proof {
                    let ii = i as int;
                    assert(radix16(hex.subrange(2 * ii, 2 * ii + 2)) is None);
                    assert(!pairs_read(hex, dlc as int));
                }
                return None;
            },
        }
        i = i + 1;
    }
    let data = Payload::new(bytes.as_slice());
    proof {
        assert(bytes@ =~= pair_bytes(hex, dlc as int));
    }
    Some(Frame { id, data, echo: false })
}

/// The bytes of ASCII text.
pub open spec fn ascii(s: Seq<char>) -> Seq<u8> {
    s.map_values(|c: char| c as u8)
}

/// The hex pairs of a payload, back to back.
pub open spec fn hex_pairs(s: Seq<u8>) -> Seq<char>
    decreases s.len(),
{
    if s.len() == 0 {
        Seq::empty()
    } else {
        hex_pairs(s.drop_last()) + hex_fixed(s.last() as nat, 2)
    }
}

/// The command that transmits a frame: `t` and three hex digits for a
/// standard id or `T` and eight for an extended one, the length in decimal,
/// the payload in hex, then `\r`.
pub open spec fn spec_command(f: Frame) -> Seq<char> {
    let head = if f.id.is_ext() {
        seq!['T'] + hex_fixed(f.id.value() as nat, 8)
    } else {
        seq!['t'] + hex_fixed(f.id.value() as nat, 3)
    };
    head + decimal(f.data@.len()) + hex_pairs(f.data@) + seq!['\r']
}

/// Convert ASCII text to its bytes.
fn to_ascii(s: &Vec<char>) -> (r: Vec<u8>)
    ensures
        r@ == ascii(s@),
{
    let mut r: Vec<u8> = Vec::new();
    let mut i: usize = 0;
    while i < s.len()
        invariant
            0 <= i <= s.len(),
            r@ == ascii(s@.subrange(0, i as int)),
        decreases s.len() - i,
    {
        r.push(s[i] as u8);
        i = i + 1;
        assert(r@ =~= ascii(s@.subrange(0, i as int)));
    }
    assert(s@.subrange(0, s.len() as int) =~= s@);
    r
}

/// The bytes that transmit a frame. slcan carries at most 8 bytes.
pub fn encode_frame(frame: &Frame) -> (r: Result<Vec<u8>, TransportError>)
    ensures
        match r {
            Ok(bytes) => frame.data@.len() <= 8 && bytes@ == ascii(spec_command(*frame)),
            Err(e) => frame.data@.len() > 8 && (e matches TransportError::Other(m) && m@
                == "slcan carries at most 8 bytes"@),
        },
{
    let n = frame.data.len();
    if n > 8 {
        let mut m: Vec<char> = Vec::new();
        push_str(&mut m, "slcan carries at most 8 bytes");
        assert(m@ =~= "slcan carries at most 8 bytes"@);
        return Err(TransportError::Other(string_of(&m)));
    }
    let mut cmd: Vec<char> = Vec::new();
    if canid::is_extended(frame.id) {
        cmd.push('T');
        push_hex_fixed(&mut cmd, canid::raw(frame.id) as u64, 8);
    } else {
        cmd.push('t');
        push_hex_fixed(&mut cmd, canid::raw(frame.id) as u64, 3);
    }
    push_decimal(&mut cmd, n as u64);
    let ghost head = cmd@;
    let mut i: usize = 0;
    while i < n
        invariant
            0 <= i <= n,
            n == frame.data@.len(),
            n <= 8,
            cmd@ == head + hex_pairs(frame.data@.subrange(0, i as int)),
        decreases n - i,
    {
        push_hex_fixed(&mut cmd, frame.data.get(i) as u64, 2);
        i = i + 1;
        assert(frame.data@.subrange(0, i as int).drop_last() =~= frame.data@.subrange(0, (i - 1) as int));
        assert(cmd@ =~= head + hex_pairs(frame.data@.subrange(0, i as int)));
    }
    cmd.push('\r');
    assert(frame.data@.subrange(0, n as int) =~= frame.data@);
    assert(cmd@ =~= spec_command(*frame));
    Ok(to_ascii(&cmd))
}

/// What the serial port has delivered but no line has consumed yet; lines end
/// at `\r`.
pub struct LineBuffer {
    pub pending: Vec<u8>,
}

/// The position of the first `\r` in `s`, if it has one.
pub open spec fn first_cr(s: Seq<u8>) -> Option<int> {
    if exists|i: int| 0 <= i < s.len() && s[i] == 13u8 {
        Some(
            choose|i: int|
                0 <= i < s.len() && s[i] == 13u8 && forall|j: int| 0 <= j < i ==> s[j] != 13u8,
        )
    } else {
        None
    }
}

impl LineBuffer {
    pub fn new() -> (b: Self)
        ensures
            b.pending@ == Seq::<u8>::empty(),
    {
        LineBuffer { pending: Vec::new() }
    }

    /// Add what the port delivered.
    pub fn extend(&mut self, bytes: &[u8])
        ensures
            final(self).pending@ == old(self).pending@ + bytes@,
    {
        let mut i: usize = 0;
        while i < bytes.len()
            invariant
                0 <= i <= bytes.len(),
                self.pending@ == old(self).pending@ + bytes@.subrange(0, i as int),
            decreases bytes.len() - i,
        {
            self.pending.push(bytes[i]);
            i = i + 1;
            assert(self.pending@ =~= old(self).pending@ + bytes@.subrange(0, i as int));
        }
        assert(bytes@.subrange(0, bytes.len() as int) =~= bytes@);
    }

    /// Pull one complete `\r`-terminated line out of the buffer, without its
    /// `\r`; the rest stays for the next call.
    pub fn take_line(&mut self) -> (r: Option<Vec<u8>>)
        ensures
            match first_cr(old(self).pending@) {
                None => r is None && final(self).pending@ == old(self).pending@,
                Some(end) => r is Some && r->0@ == old(self).pending@.subrange(0, end)
                    && final(self).pending@ == old(self).pending@.subrange(
                    end + 1,
                    old(self).pending@.len() as int,
                ),
            },
    {
        let ghost p = self.pending@;
        let mut end: usize = 0;
        while end < self.pending.len() && self.pending[end] != 13
            invariant
                0 <= end <= self.pending@.len(),
                self.pending@ == p,
                forall|j: int| 0 <= j < end ==> p[j] != 13u8,
            decreases self.pending.len() - end,
        {
            end = end + 1;
        }
        if end == self.pending.len() {
            assert(!exists|i: int| 0 <= i < p.len() && p[i] == 13u8);
            return None;
        }
        proof {
            let c = choose|i: int|
                0 <= i < p.len() && p[i] == 13u8 && forall|j: int| 0 <= j < i ==> p[j] != 13u8;
            assert(p[end as int] == 13u8);
            if c < end {
                assert(p[c] != 13u8);
            }
            if c > end {
                assert(p[end as int] != 13u8);
            }
        }
        let mut line: Vec<u8> = Vec::new();
        let mut rest: Vec<u8> = Vec::new();
        let mut i: usize = 0;
        while i < self.pending.len()
            invariant
                0 <= i <= self.pending@.len(),
                0 <= end < self.pending@.len(),
                self.pending@ == p,
                line@ == p.subrange(0, if i < end { i as int } else { end as int }),
                rest@ == p.subrange(end + 1, if i > end { i as int } else { end + 1 }),
            decreases self.pending.len() - i,
        {
            if i < end {
                line.push(self.pending[i]);
            } else if i > end {
                rest.push(self.pending[i]);
            }
            i = i + 1;
            assert(line@ =~= p.subrange(0, if i < end { i as int } else { end as int }));
            assert(rest@ =~= p.subrange(end + 1, if i > end { i as int } else { end + 1 }));
        }
        self.pending = rest;
        Some(line)
    }
}

/// The header label of an open adapter: `slcan <port> @ <rate>`.
pub fn describe(port: &str, bitrate: u32) -> (s: String)
    ensures
        s@ == "slcan "@ + port@ + " @ "@ + crate::fmt::spec_fmt_bitrate(bitrate),
{
    let mut out: Vec<char> = Vec::new();
    push_str(&mut out, "slcan ");
    push_str(&mut out, port);
    push_str(&mut out, " @ ");
    crate::fmt::push_bitrate(&mut out, bitrate);
    assert(out@ =~= "slcan "@ + port@ + " @ "@ + crate::fmt::spec_fmt_bitrate(bitrate));
    string_of(&out)
}

/// The `S` codes are the digits `'0'` to `'8'` climbing the ladder: every
/// offered bitrate has a digit, and a faster bitrate always has a higher one,
/// so no two rates share a code (10k `'0'`, 20k `'1'`, 50k `'2'`, 100k `'3'`,
/// 125k `'4'`, 250k `'5'`, 500k `'6'`, 800k `'7'`, 1M `'8'`).
pub proof fn law_rate_codes_climb_the_ladder(slow: u32, fast: u32)
    requires
        rate_code_of(slow) is Some,
        rate_code_of(fast) is Some,
        slow < fast,
    ensures
        48 <= rate_code_of(slow)->0 < rate_code_of(fast)->0 <= 56,
{
}

/// An upper-case hex digit is an ASCII byte that reads back as its value.
proof fn lemma_hex_char_reads(d: nat)
    requires
        d < 16,
    ensures
        hex_val(hex_char(d) as u8) == Some(d),
        hex_char(d) as u8 != 43u8,
        '\0' <= hex_char(d) <= '\u{7f}',
{
}

/// Appending a character appends its byte.
proof fn lemma_ascii_push(s: Seq<char>, c: char)
    ensures
        ascii(s.push(c)) == ascii(s).push(c as u8),
{
    assert(ascii(s.push(c)) =~= ascii(s).push(c as u8));
}

/// The bytes of joined text are the joined bytes.
proof fn lemma_ascii_add(a: Seq<char>, b: Seq<char>)
    ensures
        ascii(a + b) == ascii(a) + ascii(b),
{
    assert(ascii(a + b) =~= ascii(a) + ascii(b));
}

/// A value written in `w` hex digits, with room for it, reads back as itself.
proof fn lemma_hex_fixed_reads(v: nat, w: nat)
    requires
        v < p16(w),
    ensures
        hex_fixed(v, w).len() == w,
        all_hex(ascii(hex_fixed(v, w))),
        hex_value(ascii(hex_fixed(v, w))) == v,
        forall|i: int| 0 <= i < w ==> '\0' <= #[trigger] hex_fixed(v, w)[i] <= '\u{7f}',
        forall|i: int| 0 <= i < w ==> #[trigger] ascii(hex_fixed(v, w))[i] != 43u8,
    decreases w,
{
    if w > 0 {
        let q = v / 16;
        let r = v % 16;
        assert(q < p16((w - 1) as nat) && v == q * 16 + r) by (nonlinear_arith)
            requires
                v < p16(w),
                p16(w) == 16 * p16((w - 1) as nat),
                q == v / 16,
                r == v % 16,
        ;
        lemma_hex_fixed_reads(q, (w - 1) as nat);
        lemma_hex_char_reads(r);
        let front = hex_fixed(q, (w - 1) as nat);
        lemma_ascii_push(front, hex_char(r));
        let s = ascii(hex_fixed(v, w));
        assert(s.drop_last() =~= ascii(front));
        assert forall|i: int| 0 <= i < s.len() implies (#[trigger] hex_val(s[i])) is Some by {
            if i < s.len() - 1 {
                assert(s[i] == ascii(front)[i]);
            }
        }
        assert forall|i: int| 0 <= i < w implies '\0' <= #[trigger] hex_fixed(v, w)[i] <= '\u{7f}' by {
            if i < w - 1 {
                assert(hex_fixed(v, w)[i] == front[i]);
            }
        }
        assert forall|i: int| 0 <= i < w implies #[trigger] ascii(hex_fixed(v, w))[i] != 43u8 by {
            if i < w - 1 {
                assert(s[i] == ascii(front)[i]);
            }
        }
    }
}

/// Read as a base-16 number, a value written in `w > 0` hex digits is itself.
proof fn lemma_hex_fixed_radix16(v: nat, w: nat)
    requires
        v < p16(w),
        w > 0,
    ensures
        radix16(ascii(hex_fixed(v, w))) == Some(v),
{
    lemma_hex_fixed_reads(v, w);
    assert(ascii(hex_fixed(v, w))[0] != 43u8);
}

/// The hex pairs of a payload: two ASCII digits per byte, pair `i` reading
/// back as byte `i`.
proof fn lemma_hex_pairs_read(data: Seq<u8>)
    ensures
        hex_pairs(data).len() == 2 * data.len(),
        forall|j: int| 0 <= j < hex_pairs(data).len() ==> '\0' <= #[trigger] hex_pairs(data)[j] <= '\u{7f}',
        forall|i: int|
            0 <= i < data.len() ==> radix16(#[trigger] ascii(hex_pairs(data)).subrange(2 * i, 2 * i + 2)) == Some(
                data[i] as nat,
            ),
    decreases data.len(),
{
    if data.len() > 0 {
        let front = data.drop_last();
        lemma_hex_pairs_read(front);
        let b = data.last() as nat;
        assert(p16(2) == 256) by {
            reveal_with_fuel(p16, 3);
        }
        lemma_hex_fixed_reads(b, 2);
        lemma_hex_fixed_radix16(b, 2);
        let hp = hex_pairs(front);
        let tail = hex_fixed(b, 2);
        assert(hex_pairs(data) == hp + tail);
        lemma_ascii_add(hp, tail);
        assert forall|j: int| 0 <= j < hex_pairs(data).len() implies '\0' <= #[trigger] hex_pairs(data)[j] <= '\u{7f}' by {
            if j < hp.len() {
                assert(hex_pairs(data)[j] == hp[j]);
            } else {
                assert(hex_pairs(data)[j] == tail[j - hp.len()]);
            }
        }
        assert forall|i: int| 0 <= i < data.len() implies radix16(
            #[trigger] ascii(hex_pairs(data)).subrange(2 * i, 2 * i + 2),
        ) == Some(data[i] as nat) by {
            let all = ascii(hex_pairs(data));
            if i < front.len() {
                assert(all.subrange(2 * i, 2 * i + 2) =~= ascii(hp).subrange(2 * i, 2 * i + 2));
                assert(front[i] == data[i]);
            } else {
                assert(all.subrange(2 * i, 2 * i + 2) =~= ascii(tail));
            }
        }
    }
}

/// ASCII text is valid UTF-8.
proof fn lemma_ascii_is_utf8(chars: Seq<char>)
    requires
        forall|i: int| 0 <= i < chars.len() ==> '\0' <= #[trigger] chars[i] <= '\u{7f}',
    ensures
        vstd::utf8::valid_utf8(ascii(chars)),
{
    assert(vstd::utf8::is_ascii_chars(chars));
    vstd::utf8::is_ascii_chars_encode_utf8(chars);
    vstd::utf8::encode_utf8_valid_utf8(chars);
    assert(ascii(chars) =~= vstd::utf8::encode_utf8(chars));
}

/// What is sent comes back as itself: the command that transmits a frame,
/// read as a received line (without its closing `\r`), describes that very
/// frame, with its identifier, its kind and its payload.
pub proof fn law_a_sent_frame_reads_back_as_itself(f: Frame)
    requires
        f.id.is_ext() ==> f.id.value() <= canid::EXTENDED_MAX,
        !f.id.is_ext() ==> f.id.value() <= canid::STANDARD_MAX,
        f.data@.len() <= 8,
    ensures
        ascii(spec_command(f)).last() == 13u8,
        spec_parse_line(ascii(spec_command(f)).drop_last()) == Some((f.id.value(), f.id.is_ext(), f.data@)),
{
    let ext = f.id.is_ext();
    let v = f.id.value();
    let w: nat = if ext { 8 } else { 3 };
    let hx = hex_fixed(v as nat, w);
    let k = if ext { 'T' } else { 't' };
    let data = f.data@;
    let n = data.len();
    let dec = decimal(n);
    let hp = hex_pairs(data);
    let chars = seq![k] + hx + dec + hp;
    assert(dec == seq![dec_char(n)]);
    assert(spec_command(f) =~= chars + seq!['\r']);
    lemma_ascii_add(chars, seq!['\r']);
    assert(ascii(spec_command(f)).drop_last() =~= ascii(chars));
    assert(p16(3) == 4096 && p16(8) == 0x1_0000_0000) by {
        reveal_with_fuel(p16, 9);
    }
    lemma_hex_fixed_reads(v as nat, w);
    lemma_hex_fixed_radix16(v as nat, w);
    lemma_hex_pairs_read(data);
    lemma_ascii_add(seq![k] + hx + dec, hp);
    lemma_ascii_add(seq![k] + hx, dec);
    lemma_ascii_add(seq![k], hx);
    let line = ascii(chars);
    assert(line == ascii(seq![k]) + ascii(hx) + ascii(dec) + ascii(hp));
    assert(line[0] == k as u8);
    assert(line.subrange(1, 1 + w as int) =~= ascii(hx));
    assert(line[1 + w as int] == dec_char(n) as u8);
    assert(line.subrange(2 + w as int, line.len() as int) =~= ascii(hp));
    assert(forall|i: int| 0 <= i < chars.len() ==> '\0' <= #[trigger] chars[i] <= '\u{7f}') by {
        assert forall|i: int| 0 <= i < chars.len() implies '\0' <= #[trigger] chars[i] <= '\u{7f}' by {
            if 1 <= i < 1 + w {
                assert(chars[i] == hx[i - 1]);
            } else if i >= 2 + w {
                assert(chars[i] == hp[i - 2 - w]);
            }
        }
    }
    lemma_ascii_is_utf8(chars);
    if ext {
        assert(v <= 0x1FFF_FFFFu32 ==> (v & 0x1FFF_FFFFu32) == v) by (bit_vector);
    }
    let hex = ascii(hp);
    assert(pairs_read(hex, n as int)) by {
        assert forall|i: int| 0 <= i < n implies (#[trigger] radix16(hex.subrange(2 * i, 2 * i + 2))) is Some by {
            assert(radix16(ascii(hex_pairs(data)).subrange(2 * i, 2 * i + 2)) == Some(data[i] as nat));
        }
    }
    assert(pair_bytes(hex, n as int) =~= data) by {
        assert forall|i: int| 0 <= i < n implies #[trigger] pair_bytes(hex, n as int)[i] == data[i] by {
            assert(radix16(ascii(hex_pairs(data)).subrange(2 * i, 2 * i + 2)) == Some(data[i] as nat));
        }
    }
}

} // verus!
