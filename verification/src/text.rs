//! Character-level text building. Every label the tool shows is assembled
//! here from `Vec<char>`, so its exact contents are stated rather than left to
//! a formatting macro.

use vstd::prelude::*;

verus! {

/// The characters of a string slice, in order.
pub(crate) fn chars_of(s: &str) -> (v: Vec<char>)
    ensures
        v@ == s@,
{
    broadcast use vstd::string::axiom_spec_iter;

    let mut v: Vec<char> = Vec::new();
    for c in it: s.chars()
        invariant
            it.seq() == s@,
            v@ == s@.take(it.index()),
    {
        v.push(c);
        proof {
            assert(s@.take(it.index() + 1) =~= s@.take(it.index()).push(c));
        }
    }
    assert(v@ =~= s@);
    v
}

/// A string holding exactly the given characters.
///
/// Trusted: collects the characters with `FromIterator<char> for String`,
/// which std documents as pushing each one in order.
#[verifier::external_body]
pub(crate) fn string_of(v: &Vec<char>) -> (s: String)
    ensures
        s@ == v@,
{
    v.iter().collect()
}

/// The text in lower case, as Unicode's case mapping defines it.
pub uninterp spec fn lowercase(s: Seq<char>) -> Seq<char>;

/// The text in lower case.
///
/// Trusted: calls `str::to_lowercase`, which std documents as Unicode's
/// lower-case mapping of the whole text; the result depends on the text alone.
#[verifier::external_body]
pub(crate) fn to_lowercase(s: &str) -> (r: String)
    ensures
        r@ == lowercase(s@),
{
    s.to_lowercase()
}

/// The upper-case hexadecimal digit for `d < 16`.
pub open spec fn hex_char(d: nat) -> char {
    if d < 10 {
        (d + 48) as char
    } else {
        (d + 55) as char
    }
}

/// `v` in exactly `width` upper-case hex digits, most significant first.
/// Digits above `width` are dropped, as a fixed-width field does.
pub open spec fn hex_fixed(v: nat, width: nat) -> Seq<char>
    decreases width,
{
    if width == 0 {
        Seq::empty()
    } else {
        hex_fixed(v / 16, (width - 1) as nat).push(hex_char(v % 16))
    }
}

/// The decimal digit for `d < 10`.
pub open spec fn dec_char(d: nat) -> char {
    (d + 48) as char
}

/// `n` in decimal, without leading zeros (`0` is a single digit).
pub open spec fn decimal(n: nat) -> Seq<char>
    decreases n,
{
    if n < 10 {
        seq![dec_char(n)]
    } else {
        decimal(n / 10).push(dec_char(n % 10))
    }
}


pub fn hex_digit(d: u64) -> (c: char)
    requires
        d < 16,
    ensures
        c == hex_char(d as nat),
{
    let b: u8 = d as u8;
    if b < 10 {
        (b + 48) as char
    } else {
        (b + 55) as char
    }
}

/// Append `v` as exactly `width` upper-case hex digits.
pub fn push_hex_fixed(out: &mut Vec<char>, v: u64, width: usize)
    ensures
        final(out)@ == old(out)@ + hex_fixed(v as nat, width as nat),
    decreases width,
{
    if width > 0 {
        push_hex_fixed(out, v / 16, width - 1);
        out.push(hex_digit(v % 16));
    } else {
        assert(old(out)@ + hex_fixed(v as nat, 0) =~= old(out)@);
    }
    proof {
        if width > 0 {
            assert(old(out)@ + hex_fixed(v as nat, width as nat) =~= old(out)@ + hex_fixed(
                (v / 16) as nat,
                (width - 1) as nat,
            ) + seq![hex_char((v % 16) as nat)]);
        }
    }
}

/// Append `n` in decimal.
pub fn push_decimal(out: &mut Vec<char>, n: u64)
    ensures
        final(out)@ == old(out)@ + decimal(n as nat),
    decreases n,
{
    if n >= 10 {
        push_decimal(out, n / 10);
    }
    let d: u8 = (n % 10) as u8;
    out.push((d + 48) as char);
    proof {
        if n >= 10 {
            assert(old(out)@ + decimal(n as nat) =~= old(out)@ + decimal((n / 10) as nat) + seq![
                dec_char((n % 10) as nat),
            ]);
        } else {
            assert(old(out)@ + decimal(n as nat) =~= old(out)@ + seq![dec_char(n as nat)]);
        }
    }
}

/// `v` in decimal, with a leading `-` when negative.
pub open spec fn signed_decimal(v: int) -> Seq<char> {
    if v < 0 {
        seq!['-'] + decimal((-v) as nat)
    } else {
        decimal(v as nat)
    }
}

/// Append `v` in decimal, with a leading `-` when negative.
pub fn push_signed_decimal(out: &mut Vec<char>, v: i64)
    ensures
        final(out)@ == old(out)@ + signed_decimal(v as int),
{
    if v < 0 {
        out.push('-');
        let magnitude: u64 = if v == i64::MIN {
            9_223_372_036_854_775_808
        } else {
            (-v) as u64
        };
        push_decimal(out, magnitude);
        assert(final(out)@ =~= old(out)@ + signed_decimal(v as int));
    } else {
        push_decimal(out, v as u64);
    }
}

/// `n` in decimal, padded with leading zeros to at least `width` digits.
pub open spec fn padded_decimal(n: nat, width: nat) -> Seq<char> {
    let d = decimal(n);
    if d.len() < width {
        Seq::new((width - d.len()) as nat, |i: int| '0') + d
    } else {
        d
    }
}

/// Append `n` in decimal, padded with leading zeros to at least `width`
/// digits.
pub fn push_padded_decimal(out: &mut Vec<char>, n: u64, width: usize)
    ensures
        final(out)@ == old(out)@ + padded_decimal(n as nat, width as nat),
{
    let mut digits: Vec<char> = Vec::new();
    push_decimal(&mut digits, n);
    assert(digits@ =~= decimal(n as nat));
    let mut k: usize = digits.len();
    let ghost start = out@;
    while k < width
        invariant
            digits@ == decimal(n as nat),
            digits@.len() <= k <= width || (k == digits@.len() && k >= width),
            out@ == start + Seq::new((k - digits@.len()) as nat, |i: int| '0'),
            start == old(out)@,
        decreases width - k,
    {
        out.push('0');
        proof {
            assert(start + Seq::new((k + 1 - digits@.len()) as nat, |i: int| '0') =~= start + Seq::new(
                (k - digits@.len()) as nat,
                |i: int| '0',
            ).push('0'));
        }
        k = k + 1;
    }
    push_chars(out, &digits);
    proof {
        if digits@.len() < width {
            assert(k == width);
            assert(out@ =~= old(out)@ + padded_decimal(n as nat, width as nat));
        } else {
            assert(Seq::new(0nat, |i: int| '0') =~= Seq::<char>::empty());
            assert(out@ =~= old(out)@ + padded_decimal(n as nat, width as nat));
        }
    }
}


/// Append every character of `s`.
pub fn push_str(out: &mut Vec<char>, s: &str)
    ensures
        final(out)@ == old(out)@ + s@,
{
    let cs = chars_of(s);
    let mut i: usize = 0;
    while i < cs.len()
        invariant
            0 <= i <= cs.len(),
            cs@ == s@,
            out@ == old(out)@ + cs@.subrange(0, i as int),
        decreases cs.len() - i,
    {
        out.push(cs[i]);
        i = i + 1;
        assert(cs@.subrange(0, i as int) =~= cs@.subrange(0, (i - 1) as int).push(cs@[i - 1]));
    }
    assert(cs@.subrange(0, cs.len() as int) =~= cs@);
}

/// Append every character of `s`.
pub fn push_chars(out: &mut Vec<char>, s: &Vec<char>)
    ensures
        final(out)@ == old(out)@ + s@,
{
    let mut i: usize = 0;
    while i < s.len()
        invariant
            0 <= i <= s.len(),
            out@ == old(out)@ + s@.subrange(0, i as int),
        decreases s.len() - i,
    {
        out.push(s[i]);
        i = i + 1;
        assert(s@.subrange(0, i as int) =~= s@.subrange(0, (i - 1) as int).push(s@[i - 1]));
    }
    assert(s@.subrange(0, s.len() as int) =~= s@);
}

/// Whether two strings hold the same characters.
pub fn str_eq(a: &str, b: &str) -> (r: bool)
    ensures
        r == (a@ == b@),
{
    let x = chars_of(a);
    let y = chars_of(b);
    if x.len() != y.len() {
        assert(x@.len() != y@.len());
        return false;
    }
    let mut i: usize = 0;
    while i < x.len()
        invariant
            0 <= i <= x.len(),
            x.len() == y.len(),
            x@ == a@,
            y@ == b@,
            forall|j: int| 0 <= j < i ==> x@[j] == y@[j],
        decreases x.len() - i,
    {
        if x[i] != y[i] {
            return false;
        }
        i = i + 1;
    }
    assert(x@ =~= y@);
    true
}

/// The value of a digit in the given radix: `0`–`9`, then letters of either
/// case from 10 on, as long as the value is below the radix.
pub open spec fn digit_value(c: char, radix: nat) -> Option<nat> {
    let v: int = if '0' <= c <= '9' {
        c as u32 - '0' as u32
    } else if 'a' <= c <= 'z' {
        c as u32 - 'a' as u32 + 10
    } else if 'A' <= c <= 'Z' {
        c as u32 - 'A' as u32 + 10
    } else {
        radix as int
    };
    if 0 <= v < radix {
        Some(v as nat)
    } else {
        None
    }
}

/// The value of a non-empty run of digits in the given radix.
pub open spec fn digits_value(s: Seq<char>, radix: nat) -> Option<nat>
    decreases s.len(),
{
    if s.len() == 0 {
        None
    } else {
        match digit_value(s.last(), radix) {
            None => None,
            Some(d) => if s.len() == 1 {
                Some(d)
            } else {
                match digits_value(s.drop_last(), radix) {
                    None => None,
                    Some(v) => Some(v * radix + d),
                }
            },
        }
    }
}

/// A number as std reads an unsigned one in the given radix: an optional
/// `+`, then one or more digits.
pub open spec fn radix_number(s: Seq<char>, radix: nat) -> Option<nat> {
    if s.len() > 0 && s[0] == '+' {
        digits_value(s.drop_first(), radix)
    } else {
        digits_value(s, radix)
    }
}

/// A number in the given radix of at most `limit`.
pub open spec fn radix_within(s: Seq<char>, radix: nat, limit: nat) -> Option<nat> {
    match radix_number(s, radix) {
        Some(v) => if v <= limit {
            Some(v)
        } else {
            None
        },
        None => None,
    }
}

fn digit_of(c: char, radix: u64) -> (d: Option<u64>)
    requires
        2 <= radix <= 36,
    ensures
        match d {
            Some(v) => digit_value(c, radix as nat) == Some(v as nat) && v < radix,
            None => digit_value(c, radix as nat) is None,
        },
{
    let v: u64 = if c >= '0' && c <= '9' {
        (c as u32 - '0' as u32) as u64
    } else if c >= 'a' && c <= 'z' {
        (c as u32 - 'a' as u32 + 10) as u64
    } else if c >= 'A' && c <= 'Z' {
        (c as u32 - 'A' as u32 + 10) as u64
    } else {
        radix
    };
    if v < radix {
        Some(v)
    } else {
        None
    }
}

proof fn lemma_digits_grow(s: Seq<char>, k: int, radix: nat)
    requires
        1 <= k <= s.len(),
        radix >= 2,
        digits_value(s.subrange(0, k), radix) is Some,
        digits_value(s, radix) is Some,
    ensures
        digits_value(s, radix)->0 >= digits_value(s.subrange(0, k), radix)->0,
    decreases s.len(),
{
    if k < s.len() {
        let t = s.drop_last();
        assert(t.subrange(0, k) =~= s.subrange(0, k));
        assert(digits_value(t, radix) is Some);
        lemma_digits_grow(t, k, radix);
        assert(digits_value(s, radix)->0 == digits_value(t, radix)->0 * radix + digit_value(s.last(), radix)->0);
        assert(digits_value(t, radix)->0 * radix >= digits_value(t, radix)->0) by (nonlinear_arith)
            requires
                radix >= 2,
        ;
    } else {
        assert(s.subrange(0, k) =~= s);
    }
}

proof fn lemma_no_digit(d: Seq<char>, k: int, radix: nat)
    requires
        0 <= k < d.len(),
        digit_value(d[k], radix) is None,
    ensures
        digits_value(d, radix) is None,
    decreases d.len(),
{
    if k < d.len() - 1 {
        lemma_no_digit(d.drop_last(), k, radix);
    }
}

/// Read `s[from..]` as a number in `radix` of at most `limit` (see
/// [`radix_within`]).
pub fn parse_radix_within(s: &Vec<char>, from: usize, radix: u64, limit: u64) -> (r: Option<u64>)
    requires
        from <= s@.len(),
        2 <= radix <= 36,
        limit <= u32::MAX,
    ensures
        match r {
            Some(v) => radix_within(s@.subrange(from as int, s@.len() as int), radix as nat, limit as nat)
                == Some(v as nat),
            None => radix_within(s@.subrange(from as int, s@.len() as int), radix as nat, limit as nat)
                is None,
        },
{
    let ghost t = s@.subrange(from as int, s@.len() as int);
    let ghost rd = radix as nat;
    let mut start = from;
    if start < s.len() && s[start] == '+' {
        start = start + 1;
    }
    let ghost d = s@.subrange(start as int, s@.len() as int);
    proof {
        if start > from {
            assert(t.drop_first() =~= d);
            assert(t[0] == '+');
        } else {
            assert(t =~= d);
        }
        assert(radix_number(t, rd) == digits_value(d, rd));
    }
    if start == s.len() {
        return None;
    }
    let mut v: u64 = 0;
    let mut i = start;
    while i < s.len()
        invariant
            from <= start <= i <= s@.len(),
            start < s@.len(),
            2 <= radix <= 36,
            rd == radix as nat,
            limit <= u32::MAX,
            d == s@.subrange(start as int, s@.len() as int),
            t == s@.subrange(from as int, s@.len() as int),
            radix_number(t, rd) == digits_value(d, rd),
            i > start ==> digits_value(s@.subrange(start as int, i as int), rd) == Some(v as nat),
            i == start ==> v == 0,
            v <= limit,
        decreases s@.len() - i,
    {
        let ghost pre = s@.subrange(start as int, i as int);
        let ghost now = s@.subrange(start as int, i + 1);
        proof {
            assert(now.drop_last() =~= pre);
            assert(now.last() == s@[i as int]);
        }
        match digit_of(s[i], radix) {
            None => {
                proof {
                    assert(d[i - start] == s@[i as int]);
                    lemma_no_digit(d, i - start, rd);
                    assert(radix_number(t, rd) is None);
                }
                return None;
            },
            Some(x) => {
                proof {
                    assert(v * radix + x <= 0xffff_ffff * 36 + 35) by (nonlinear_arith)
                        requires
                            v <= 0xffff_ffff,
                            radix <= 36,
                            x < radix,
                    ;
                }
                let next = v * radix + x;
                proof {
                    if i == start {
                        assert(digits_value(now, rd) == Some(x as nat));
                    }
                    assert(digits_value(now, rd) == Some(next as nat));
                }
                if next > limit {
                    proof {
                        assert(now =~= d.subrange(0, i + 1 - start));
                        if digits_value(d, rd) is Some {
                            lemma_digits_grow(d, i + 1 - start, rd);
                            assert(digits_value(d, rd)->0 > limit);
                        }
                        assert(radix_within(t, rd, limit as nat) is None);
                    }
                    return None;
                }
                v = next;
            },
        }
        i = i + 1;
    }
    proof {
        assert(s@.subrange(start as int, i as int) =~= d);
    }
    Some(v)
}

/// Whether `needle` occurs in `hay`.
pub open spec fn contains_text(hay: Seq<char>, needle: Seq<char>) -> bool {
    exists|i: int| 0 <= i <= hay.len() - needle.len() && #[trigger] hay.subrange(i, i + needle.len()) == needle
}

/// Whether `needle` occurs in `hay`.
pub fn find_text(hay: &Vec<char>, needle: &str) -> (r: bool)
    ensures
        r == contains_text(hay@, needle@),
{
    let n = chars_of(needle);
    if n.len() > hay.len() {
        proof {
            assert forall|i: int| 0 <= i <= hay@.len() - n@.len() implies #[trigger] hay@.subrange(
                i,
                i + n@.len(),
            ) != needle@ by {}
        }
        return false;
    }
    let mut i: usize = 0;
    while i <= hay.len() - n.len()
        invariant
            n@ == needle@,
            n@.len() <= hay@.len(),
            0 <= i <= hay@.len() - n@.len() + 1,
            forall|j: int| 0 <= j < i ==> #[trigger] hay@.subrange(j, j + n@.len()) != n@,
        decreases hay@.len() - i,
    {
        let mut k: usize = 0;
        while k < n.len() && hay[i + k] == n[k]
            invariant
                0 <= k <= n@.len(),
                n@.len() <= hay@.len(),
                i <= hay@.len() - n@.len(),
                i + n@.len() <= hay@.len(),
                n@.len() == n.len(),
                hay@.len() == hay.len(),
                forall|m: int| 0 <= m < k ==> hay@[i + m] == n@[m],
            decreases n@.len() - k,
        {
            k = k + 1;
        }
        if k == n.len() {
            proof {
                assert(hay@.subrange(i as int, i + n@.len()) =~= n@);
            }
            return true;
        }
        proof {
            assert(hay@.subrange(i as int, i + n@.len())[k as int] != n@[k as int]);
        }
        i = i + 1;
    }
    false
}

/// Whether `s` begins with `prefix`.
pub fn starts_with(s: &Vec<char>, prefix: &str) -> (r: bool)
    ensures
        r == (s@.len() >= prefix@.len() && s@.subrange(0, prefix@.len() as int) == prefix@),
{
    let p = chars_of(prefix);
    if p.len() > s.len() {
        return false;
    }
    let mut k: usize = 0;
    while k < p.len() && s[k] == p[k]
        invariant
            0 <= k <= p@.len() <= s@.len(),
            p@ == prefix@,
            forall|m: int| 0 <= m < k ==> s@[m] == p@[m],
        decreases p@.len() - k,
    {
        k = k + 1;
    }
    if k == p.len() {
        assert(s@.subrange(0, p@.len() as int) =~= p@);
        true
    } else {
        assert(s@.subrange(0, p@.len() as int)[k as int] != p@[k as int]);
        false
    }
}

/// `n` spaces.
pub open spec fn spaces(n: nat) -> Seq<char> {
    Seq::new(n, |i: int| ' ')
}

/// Text right-aligned in a field of `width` characters (`{:>width}`): spaces
/// in front when it is shorter, unchanged when it is not.
pub open spec fn pad_left(s: Seq<char>, width: nat) -> Seq<char> {
    if s.len() < width {
        spaces((width - s.len()) as nat) + s
    } else {
        s
    }
}

/// Text left-aligned in a field of `width` characters (`{:<width}`): spaces
/// after it when it is shorter, unchanged when it is not.
pub open spec fn pad_right(s: Seq<char>, width: nat) -> Seq<char> {
    if s.len() < width {
        s + spaces((width - s.len()) as nat)
    } else {
        s
    }
}

fn push_spaces(out: &mut Vec<char>, n: usize)
    ensures
        final(out)@ == old(out)@ + spaces(n as nat),
{
    let mut i: usize = 0;
    while i < n
        invariant
            0 <= i <= n,
            out@ == old(out)@ + spaces(i as nat),
        decreases n - i,
    {
        out.push(' ');
        proof {
            assert(old(out)@ + spaces((i + 1) as nat) =~= old(out)@ + spaces(i as nat) + seq![' ']);
        }
        i = i + 1;
    }
}

/// Append text right-aligned in a field of `width` characters.
pub fn push_right(out: &mut Vec<char>, s: &str, width: usize)
    ensures
        final(out)@ == old(out)@ + pad_left(s@, width as nat),
{
    let n = chars_of(s).len();
    if n < width {
        push_spaces(out, width - n);
    }
    push_str(out, s);
    assert(final(out)@ =~= old(out)@ + pad_left(s@, width as nat));
}

/// Append text left-aligned in a field of `width` characters.
pub fn push_left(out: &mut Vec<char>, s: &str, width: usize)
    ensures
        final(out)@ == old(out)@ + pad_right(s@, width as nat),
{
    let n = chars_of(s).len();
    push_str(out, s);
    if n < width {
        push_spaces(out, width - n);
    }
    assert(final(out)@ =~= old(out)@ + pad_right(s@, width as nat));
}

} // verus!
