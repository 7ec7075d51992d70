//! Multiplexor resolution, and the raw range a field can hold.
//!
//! A multiplexed message only carries the signals its current multiplexor value
//! selects; including the others produces a frame the receiver will misread.

use vstd::prelude::*;

use super::{spec_is_multiplexed, MessageDef, Mux, SignalDef};

verus! {

/// Whether signal `k` of a message belongs in a frame whose multiplexor holds
/// the raw value `selector` (`None` when no valid value is selected).
pub open spec fn spec_is_active(msg: MessageDef, selector: Option<u64>, k: int) -> bool {
    if !spec_is_multiplexed(msg) {
        true
    } else {
        match msg.signals[k].mux {
            Mux::Plain => true,
            Mux::Selector => true,
            Mux::SelectedBy(ids) => selector is Some && ids@.contains(selector->0),
        }
    }
}

/// The indices of the active signals among the first `n`, in order.
pub open spec fn active_prefix(msg: MessageDef, selector: Option<u64>, n: nat) -> Seq<int>
    decreases n,
{
    if n == 0 {
        Seq::empty()
    } else {
        let prev = active_prefix(msg, selector, (n - 1) as nat);
        if spec_is_active(msg, selector, n - 1) {
            prev.push(n - 1)
        } else {
            prev
        }
    }
}

/// The indices of every active signal of the message, in order.
pub open spec fn spec_active(msg: MessageDef, selector: Option<u64>) -> Seq<int> {
    active_prefix(msg, selector, msg.signals.len() as nat)
}

pub proof fn lemma_active_prefix_bounds(msg: MessageDef, selector: Option<u64>, n: nat)
    ensures
        forall|j: int|
            0 <= j < active_prefix(msg, selector, n).len() ==> 0 <= #[trigger] active_prefix(
                msg,
                selector,
                n,
            )[j] < n,
        active_prefix(msg, selector, n).len() <= n,
    decreases n,
{
    if n > 0 {
        lemma_active_prefix_bounds(msg, selector, (n - 1) as nat);
    }
}

/// Whether a list of multiplexor values holds `v`.
fn holds_value(ids: &Vec<u64>, v: u64) -> (r: bool)
    ensures
        r == ids@.contains(v),
{
    let mut i: usize = 0;
    while i < ids.len()
        invariant
            0 <= i <= ids.len(),
            forall|j: int| 0 <= j < i ==> ids@[j] != v,
        decreases ids.len() - i,
    {
        if ids[i] == v {
            return true;
        }
        i = i + 1;
    }
    false
}

/// The signals that belong in this encode, as indices into `msg.signals`.
///
/// `selector` is the raw multiplexor value (`None` when the current value is
/// not one the field can hold). A message without a multiplexor carries every
/// signal.
pub fn active_signals(msg: &MessageDef, selector: Option<u64>) -> (r: Vec<usize>)
    ensures
        r@.len() == spec_active(*msg, selector).len(),
        forall|j: int| 0 <= j < r@.len() ==> r@[j] as int == #[trigger] spec_active(*msg, selector)[j],
        forall|j: int| 0 <= j < r@.len() ==> (#[trigger] r@[j]) < msg.signals.len(),
{
    let multiplexed = msg.is_multiplexed();
    let mut r: Vec<usize> = Vec::new();
    let mut k: usize = 0;
    while k < msg.signals.len()
        invariant
            0 <= k <= msg.signals.len(),
            multiplexed == spec_is_multiplexed(*msg),
            r@.len() == active_prefix(*msg, selector, k as nat).len(),
            forall|j: int|
                0 <= j < r@.len() ==> r@[j] as int == #[trigger] active_prefix(
                    *msg,
                    selector,
                    k as nat,
                )[j],
            forall|j: int| 0 <= j < r@.len() ==> (#[trigger] r@[j]) < k,
        decreases msg.signals.len() - k,
    {
        let keep = if !multiplexed {
            true
        } else {
            match &msg.signals[k].mux {
                Mux::Plain => true,
                Mux::Selector => true,
                Mux::SelectedBy(ids) => match selector {
                    Some(v) => holds_value(ids, v),
                    None => false,
                },
            }
        };
        if keep {
            r.push(k);
        }
        k = k + 1;
    }
    r
}

/// Whether a multiplexing tag names the multiplexor value `v`.
pub open spec fn selects(m: Mux, v: u64) -> bool {
    match m {
        Mux::SelectedBy(ids) => ids@.contains(v),
        _ => false,
    }
}

/// Whether some signal of the message is selected by multiplexor value `v`.
pub open spec fn spec_defined(msg: MessageDef, v: u64) -> bool {
    exists|i: int| 0 <= i < msg.signals.len() && #[trigger] selects(msg.signals[i].mux, v)
}

/// Insert `x` into an ascending list without repeats, keeping it so.
fn insert_sorted(v: &mut Vec<u64>, x: u64)
    requires
        forall|a: int, b: int| 0 <= a < b < old(v)@.len() ==> old(v)@[a] < old(v)@[b],
    ensures
        forall|a: int, b: int| 0 <= a < b < final(v)@.len() ==> final(v)@[a] < final(v)@[b],
        forall|y: u64| final(v)@.contains(y) <==> (old(v)@.contains(y) || y == x),
{
    let mut i: usize = 0;
    while i < v.len() && v[i] < x
        invariant
            0 <= i <= v.len(),
            v@ == old(v)@,
            forall|j: int| 0 <= j < i ==> v@[j] < x,
        decreases v.len() - i,
    {
        i = i + 1;
    }
    if i < v.len() && v[i] == x {
        assert forall|y: u64| v@.contains(y) <==> (old(v)@.contains(y) || y == x) by {
            if y == x {
                assert(v@[i as int] == y);
            }
        }
        return;
    }
    let ghost before = v@;
    assert(i < before.len() ==> before[i as int] > x);
    v.insert(i, x);
    proof {
        let s = v@;
        assert(s.len() == before.len() + 1);
        assert forall|t: int| 0 <= t < s.len() implies #[trigger] s[t] == if t < i {
            before[t]
        } else if t == i {
            x
        } else {
            before[t - 1]
        } by {}
        assert forall|y: u64| s.contains(y) <==> (before.contains(y) || y == x) by {
            if s.contains(y) {
                let t = choose|t: int| 0 <= t < s.len() && #[trigger] s[t] == y;
                if t < i {
                    assert(before[t] == y);
                } else if t > i {
                    assert(before[t - 1] == y);
                }
            }
            if before.contains(y) {
                let t = choose|t: int| 0 <= t < before.len() && #[trigger] before[t] == y;
                if t < i {
                    assert(s[t] == y);
                } else {
                    assert(s[t + 1] == y);
                }
            }
            if y == x {
                assert(s[i as int] == x);
            }
        }
        assert forall|a: int, b: int| 0 <= a < b < s.len() implies s[a] < s[b] by {
            if b < i {
            } else if b == i {
            } else if a < i {
                assert(before[a] < x);
                assert(before[i as int] <= before[b - 1]);
            } else if a == i {
                assert(before[i as int] <= before[b - 1]);
            } else {
            }
        }
    }
}

/// The multiplexor values this message actually defines, ascending.
pub fn defined_selectors(msg: &MessageDef) -> (r: Vec<u64>)
    ensures
        forall|a: int, b: int| 0 <= a < b < r@.len() ==> r@[a] < r@[b],
        forall|x: u64| r@.contains(x) <==> spec_defined(*msg, x),
{
    let mut r: Vec<u64> = Vec::new();
    let mut k: usize = 0;
    while k < msg.signals.len()
        invariant
            0 <= k <= msg.signals.len(),
            forall|a: int, b: int| 0 <= a < b < r@.len() ==> r@[a] < r@[b],
            forall|x: u64|
                r@.contains(x) <==> exists|i: int| 0 <= i < k && #[trigger] selects(msg.signals[i].mux, x),
        decreases msg.signals.len() - k,
    {
        let ghost before = r@;
        assert forall|x: u64|
            before.contains(x) <==> exists|i: int| 0 <= i < k && #[trigger] selects(msg.signals[i].mux, x) by {}
        match &msg.signals[k].mux {
            Mux::SelectedBy(ids) => {
                let mut j: usize = 0;
                while j < ids.len()
                    invariant
                        0 <= j <= ids.len(),
                        forall|a: int, b: int| 0 <= a < b < r@.len() ==> r@[a] < r@[b],
                        forall|x: u64|
                            #![trigger r@.contains(x)]
                            r@.contains(x) <==> (before.contains(x) || ids@.subrange(0, j as int).contains(x)),
                    decreases ids.len() - j,
                {
                    let ghost prev = r@;
                    insert_sorted(&mut r, ids[j]);
                    proof {
                        let sj = ids@.subrange(0, j as int);
                        let a = ids@[j as int];
                        assert(ids@.subrange(0, j + 1) =~= sj.push(a));
                        assert forall|x: u64| sj.push(a).contains(x) <==> (sj.contains(x) || x == a) by {
                            if sj.push(a).contains(x) {
                                let t = choose|t: int| 0 <= t < sj.len() + 1 && #[trigger] sj.push(a)[t] == x;
                                if t < sj.len() {
                                    assert(sj[t] == x);
                                }
                            }
                            if sj.contains(x) {
                                let t = choose|t: int| 0 <= t < sj.len() && #[trigger] sj[t] == x;
                                assert(sj.push(a)[t] == x);
                            }
                            if x == a {
                                assert(sj.push(a)[sj.len() as int] == x);
                            }
                        }
                        assert forall|x: u64|
                            r@.contains(x) <==> (before.contains(x) || ids@.subrange(0, j + 1).contains(x)) by {
                            assert(ids@.subrange(0, j + 1).contains(x) == sj.push(a).contains(x));
                            assert(r@.contains(x) == (prev.contains(x) || x == a));
                            assert(prev.contains(x) == (before.contains(x) || sj.contains(x)));
                        }
                    }
                    j = j + 1;
                }
                assert(ids@.subrange(0, ids.len() as int) =~= ids@);
                proof {
                    assert forall|x: u64|
                        r@.contains(x) <==> exists|i: int| 0 <= i < k + 1 && #[trigger] selects(msg.signals[i].mux, x) by {
                        assert(selects(msg.signals[k as int].mux, x) == ids@.contains(x));
                        if r@.contains(x) && !before.contains(x) {
                            assert(selects(msg.signals[k as int].mux, x));
                        }
                        if exists|i: int| 0 <= i < k + 1 && #[trigger] selects(msg.signals[i].mux, x) {
                            let i = choose|i: int| 0 <= i < k + 1 && #[trigger] selects(msg.signals[i].mux, x);
                            if i == k {
                                assert(ids@.contains(x));
                            } else {
                                assert(before.contains(x));
                            }
                        }
                    }
                }
            },
            _ => {
                proof {
                    assert forall|x: u64|
                        r@.contains(x) <==> exists|i: int| 0 <= i < k + 1 && #[trigger] selects(msg.signals[i].mux, x) by {
                        if exists|i: int| 0 <= i < k + 1 && #[trigger] selects(msg.signals[i].mux, x) {
                            let i = choose|i: int| 0 <= i < k + 1 && #[trigger] selects(msg.signals[i].mux, x);
                            assert(i != k);
                        }
                    }
                }
            },
        }
        k = k + 1;
    }
    r
}

/// The lowest raw value a field can hold.
pub open spec fn spec_raw_min(len: u16, signed: bool) -> int {
    if signed {
        -vstd::arithmetic::power2::pow2((len - 1) as nat)
    } else {
        0
    }
}

/// The highest raw value a field can hold.
pub open spec fn spec_raw_max(len: u16, signed: bool) -> int {
    if signed {
        vstd::arithmetic::power2::pow2((len - 1) as nat) - 1
    } else {
        vstd::arithmetic::power2::pow2(len as nat) - 1
    }
}

/// What the field can physically hold as a raw value, from its width and
/// signedness; `None` for a width of 0 or above 64, which have no usable
/// bound. Physical limits are this range put through the signal's scale.
pub fn raw_range(sig: &SignalDef) -> (r: Option<(i128, i128)>)
    ensures
        match r {
            Some((lo, hi)) => 0 < sig.len <= 64 && lo == spec_raw_min(sig.len, sig.signed) && hi
                == spec_raw_max(sig.len, sig.signed),
            None => sig.len == 0 || sig.len > 64,
        },
{
    if sig.len == 0 || sig.len > 64 {
        return None;
    }
    let n: u32 = sig.len as u32;
    proof {
        vstd::arithmetic::power2::lemma_pow2_pos(n as nat);
        vstd::arithmetic::power2::lemma_pow2_pos((n - 1) as nat);
        vstd::arithmetic::power2::lemma2_to64();
        vstd::arithmetic::power2::lemma2_to64_rest();
        if n < 64 {
            vstd::arithmetic::power2::lemma_pow2_strictly_increases(n as nat, 64);
        }
        vstd::arithmetic::power2::lemma_pow2_strictly_increases((n - 1) as nat, 64);
    }
    let p: i128 = pow2_i128(n);
    if sig.signed {
        let h: i128 = pow2_i128(n - 1);
        Some((-h, h - 1))
    } else {
        Some((0, p - 1))
    }
}

/// 2^n as an `i128`, for `n <= 64`.
fn pow2_i128(n: u32) -> (r: i128)
    requires
        n <= 64,
    ensures
        r == vstd::arithmetic::power2::pow2(n as nat),
    decreases n,
{
    if n == 0 {
        proof {
            vstd::arithmetic::power2::lemma2_to64();
        }
        1
    } else {
        let h = pow2_i128(n - 1);
        proof {
            vstd::arithmetic::power2::lemma_pow2_unfold(n as nat);
            vstd::arithmetic::power2::lemma_pow2_strictly_increases((n - 1) as nat, 64);
            vstd::arithmetic::power2::lemma2_to64_rest();
        }
        2 * h
    }
}

/// The range a field offers is exactly the raw values it carries intact: a
/// value lies between the field's lowest and highest raw value if and only if
/// writing it and reading it back gives it again (see
/// `law_a_field_reads_back_what_was_written`).
pub proof fn law_the_raw_range_is_what_a_field_carries(len: u16, signed: bool, x: int)
    requires
        0 < len <= 64,
    ensures
        spec_raw_min(len, signed) <= x <= spec_raw_max(len, signed) <==> crate::dbc::codec::fits_raw(x, len, signed),
{
}

} // verus!
