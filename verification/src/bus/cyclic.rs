//! The periodic-send table.
//!
//! Entries are kept in key order, which is the order the panel lists them in.
//! Times are nanoseconds on the caller's monotonic clock.

use vstd::prelude::*;

use crate::canid::Id;
use crate::order::{Order, key_less, key_order, lemma_key_less_irreflexive, lemma_key_less_transitive};
use crate::text::chars_of;
use crate::transport::Payload;

verus! {

/// One periodic send.
pub struct Entry {
    pub key: String,
    pub id: Id,
    pub data: Payload,
    /// Nanoseconds between sends.
    pub period: u64,
    /// When it is next due.
    pub next: u64,
    /// Frames sent so far.
    pub count: u64,
}

/// Whether the keys of a table are in strictly increasing order.
pub open spec fn in_key_order(t: Seq<Entry>) -> bool {
    forall|i: int, j: int| 0 <= i < j < t.len() ==> key_less(#[trigger] t[i].key@, #[trigger] t[j].key@)
}

/// Where `key` sits in a table: its position when present.
pub open spec fn position_of(t: Seq<Entry>, key: Seq<char>) -> Option<int> {
    if exists|i: int| 0 <= i < t.len() && #[trigger] t[i].key@ == key {
        Some(choose|i: int| 0 <= i < t.len() && #[trigger] t[i].key@ == key)
    } else {
        None
    }
}

/// The frames sent so far for `key`, 0 when it has no entry.
pub open spec fn count_of(t: Seq<Entry>, key: Seq<char>) -> u64 {
    match position_of(t, key) {
        Some(i) => t[i].count,
        None => 0,
    }
}

/// The entries of `t` that are due at `now`, in order, as (identifier,
/// payload).
pub open spec fn due_frames(t: Seq<Entry>, now: u64) -> Seq<(Id, Seq<u8>)>
    decreases t.len(),
{
    if t.len() == 0 {
        Seq::empty()
    } else {
        let rest = due_frames(t.drop_last(), now);
        let e = t.last();
        if e.next <= now {
            rest.push((e.id, e.data@))
        } else {
            rest
        }
    }
}

/// An entry after a send at `now`: next due one period later, one more frame
/// counted.
pub open spec fn sent(e: Entry, now: u64) -> Entry {
    Entry { next: (now + e.period) as u64, count: (e.count + 1) as u64, ..e }
}

/// The earliest `next` among the entries.
pub open spec fn earliest(t: Seq<Entry>) -> Option<u64>
    decreases t.len(),
{
    if t.len() == 0 {
        None
    } else {
        match earliest(t.drop_last()) {
            None => Some(t.last().next),
            Some(m) => Some(if t.last().next < m {
                t.last().next
            } else {
                m
            }),
        }
    }
}

pub struct Cyclic {
    entries: Vec<Entry>,
}

impl Cyclic {
    /// The entries, in key order.
    pub closed spec fn table(&self) -> Seq<Entry> {
        self.entries@
    }

    /// The table's invariant: keys in strictly increasing order, so each key
    /// has one entry.
    pub closed spec fn wf(&self) -> bool {
        in_key_order(self.entries@)
    }

    pub fn new() -> (c: Cyclic)
        ensures
            c.wf(),
            c.table().len() == 0,
    {
        Cyclic { entries: Vec::new() }
    }

    pub fn len(&self) -> (n: usize)
        ensures
            n == self.table().len(),
    {
        self.entries.len()
    }

    /// Where `key` is, or where it would go.
    fn find(&self, key: &str) -> (r: (usize, bool))
        requires
            self.wf(),
        ensures
            r.0 <= self.table().len(),
            r.1 ==> r.0 < self.table().len() && self.table()[r.0 as int].key@ == key@,
            forall|i: int| 0 <= i < r.0 ==> key_less(#[trigger] self.table()[i].key@, key@),
            !r.1 ==> forall|i: int| r.0 <= i < self.table().len() ==> key_less(key@, #[trigger] self.table()[i].key@),
    {
        let mut i: usize = 0;
        while i < self.entries.len()
            invariant
                0 <= i <= self.entries@.len(),
                self.wf(),
                forall|j: int| 0 <= j < i ==> key_less(#[trigger] self.entries@[j].key@, key@),
            decreases self.entries@.len() - i,
        {
            let k = chars_of(self.entries[i].key.as_str());
            match key_order(&k, key) {
                Order::Before => {},
                Order::Same => {
                    return (i, true);
                },
                Order::After => {
                    proof {
                        assert forall|j: int| i <= j < self.entries@.len() implies key_less(key@, #[trigger] self.entries@[j].key@) by {
                            if j > i {
                                lemma_key_less_transitive(key@, self.entries@[i as int].key@, self.entries@[j].key@);
                            }
                        }
                    }
                    return (i, false);
                },
            }
            i = i + 1;
        }
        (i, false)
    }

    /// Start (or re-arm) the periodic send under `key`, due at once. A key
    /// already present keeps its count.
    pub fn set(&mut self, key: String, id: Id, data: Payload, period: u64, now: u64)
        requires
            old(self).wf(),
        ensures
            final(self).wf(),
            ({
                let e = Entry { key, id, data, period, next: now, count: count_of(old(self).table(), key@) };
                match position_of(old(self).table(), key@) {
                    Some(i) => final(self).table() == old(self).table().update(i, e),
                    None => exists|i: int|
                        0 <= i <= old(self).table().len() && final(self).table() == old(self).table().insert(i, e),
                }
            }),
    {
        let (at, present) = self.find(key.as_str());
        let ghost t = self.entries@;
        if present {
            let count = self.entries[at].count;
            proof {
                assert(position_of(t, key@) is Some);
                let p = position_of(t, key@)->0;
                if p != at {
                    if p < at {
                        assert(key_less(t[p].key@, t[at as int].key@));
                    } else {
                        assert(key_less(t[at as int].key@, t[p].key@));
                    }
                    lemma_key_less_irreflexive(key@);
                }
            }
            let ghost e = Entry { key, id, data, period, next: now, count };
            self.entries.set(at, Entry { key, id, data, period, next: now, count });
            proof {
                assert forall|i: int, j: int| 0 <= i < j < self.entries@.len() implies key_less(
                    #[trigger] self.entries@[i].key@,
                    #[trigger] self.entries@[j].key@,
                ) by {
                    assert(key_less(t[i].key@, t[j].key@));
                }
            }
        } else {
            proof {
                assert(position_of(t, key@) is None) by {
                    if exists|i: int| 0 <= i < t.len() && #[trigger] t[i].key@ == key@ {
                        let i = choose|i: int| 0 <= i < t.len() && #[trigger] t[i].key@ == key@;
                        lemma_key_less_irreflexive(key@);
                        if i < at {
                            assert(key_less(t[i].key@, key@));
                        } else {
                            assert(key_less(key@, t[i].key@));
                        }
                    }
                }
            }
            self.entries.insert(at, Entry { key, id, data, period, next: now, count: 0 });
            proof {
                let u = self.entries@;
                assert forall|i: int, j: int| 0 <= i < j < u.len() implies key_less(
                    #[trigger] u[i].key@,
                    #[trigger] u[j].key@,
                ) by {
                    if j < at {
                        assert(key_less(t[i].key@, t[j].key@));
                    } else if j == at {
                        assert(u[i] == t[i]);
                    } else if i == at {
                        assert(u[j] == t[j - 1]);
                    } else if i < at {
                        assert(u[i] == t[i] && u[j] == t[j - 1]);
                        assert(key_less(t[i].key@, t[j - 1].key@));
                    } else {
                        assert(u[i] == t[i - 1] && u[j] == t[j - 1]);
                        assert(key_less(t[i - 1].key@, t[j - 1].key@));
                    }
                }
            }
        }
    }

    /// Stop the periodic send under `key`, if there is one.
    pub fn remove(&mut self, key: &str)
        requires
            old(self).wf(),
        ensures
            final(self).wf(),
            match position_of(old(self).table(), key@) {
                Some(i) => final(self).table() == old(self).table().remove(i),
                None => final(self).table() == old(self).table(),
            },
    {
        let (at, present) = self.find(key);
        let ghost t = self.entries@;
        proof {
            if present {
                let p = position_of(t, key@)->0;
                if p != at {
                    if p < at {
                        assert(key_less(t[p].key@, t[at as int].key@));
                    } else {
                        assert(key_less(t[at as int].key@, t[p].key@));
                    }
                    lemma_key_less_irreflexive(key@);
                }
            } else if exists|i: int| 0 <= i < t.len() && #[trigger] t[i].key@ == key@ {
                let i = choose|i: int| 0 <= i < t.len() && #[trigger] t[i].key@ == key@;
                lemma_key_less_irreflexive(key@);
                if i < at {
                    assert(key_less(t[i].key@, key@));
                } else {
                    assert(key_less(key@, t[i].key@));
                }
            }
        }
        if present {
            self.entries.remove(at);
            proof {
                let u = self.entries@;
                assert forall|i: int, j: int| 0 <= i < j < u.len() implies key_less(
                    #[trigger] u[i].key@,
                    #[trigger] u[j].key@,
                ) by {
                    if j < at {
                        assert(u[i] == t[i] && u[j] == t[j]);
                    } else if i < at {
                        assert(u[i] == t[i] && u[j] == t[j + 1]);
                        assert(key_less(t[i].key@, t[j + 1].key@));
                    } else {
                        assert(u[i] == t[i + 1] && u[j] == t[j + 1]);
                        assert(key_less(t[i + 1].key@, t[j + 1].key@));
                    }
                }
            }
        }
    }

    /// Stop every periodic send.
    pub fn clear(&mut self)
        ensures
            final(self).wf(),
            final(self).table().len() == 0,
    {
        self.entries = Vec::new();
    }

    /// Restart every schedule from `now`. Used when a dropped link comes back:
    /// the stale deadlines would otherwise all fire at once.
    pub fn rearm(&mut self, now: u64)
        requires
            old(self).wf(),
        ensures
            final(self).wf(),
            final(self).table().len() == old(self).table().len(),
            forall|i: int|
                0 <= i < old(self).table().len() ==> final(self).table()[i] == (Entry {
                    next: now,
                    ..#[trigger] old(self).table()[i]
                }),
    {
        let ghost t = self.entries@;
        let mut i: usize = 0;
        while i < self.entries.len()
            invariant
                0 <= i <= t.len(),
                self.entries@.len() == t.len(),
                forall|j: int| 0 <= j < i ==> self.entries@[j] == (Entry { next: now, ..#[trigger] t[j] }),
                forall|j: int| i <= j < t.len() ==> #[trigger] self.entries@[j] == t[j],
            decreases t.len() - i,
        {
            self.entries[i].next = now;
            i = i + 1;
        }
        proof {
            assert forall|a: int, b: int| 0 <= a < b < self.entries@.len() implies key_less(
                #[trigger] self.entries@[a].key@,
                #[trigger] self.entries@[b].key@,
            ) by {
                assert(key_less(t[a].key@, t[b].key@));
            }
        }
    }

    /// Whether every send due at `now` can be rescheduled and counted: its
    /// next deadline fits the clock and its count can still go up (what
    /// [`Cyclic::take_due`] needs).
    pub fn due_fits(&self, now: u64) -> (r: bool)
        ensures
            r == forall|i: int|
                0 <= i < self.table().len() && (#[trigger] self.table()[i]).next <= now ==> now
                    + self.table()[i].period <= u64::MAX && self.table()[i].count < u64::MAX,
    {
        let mut i: usize = 0;
        while i < self.entries.len()
            invariant
                0 <= i <= self.entries@.len(),
                forall|j: int|
                    0 <= j < i && (#[trigger] self.entries@[j]).next <= now ==> now + self.entries@[j].period
                        <= u64::MAX && self.entries@[j].count < u64::MAX,
            decreases self.entries@.len() - i,
        {
            let e = &self.entries[i];
            if e.next <= now && (e.period > u64::MAX - now || e.count == u64::MAX) {
                assert(self.table()[i as int] == self.entries@[i as int]);
                return false;
            }
            i = i + 1;
        }
        true
    }

    /// When the next send is due, if any is.
    pub fn next_due(&self) -> (d: Option<u64>)
        ensures
            d == earliest(self.table()),
            d is None <==> self.table().len() == 0,
            d is Some ==> exists|i: int| 0 <= i < self.table().len() && (#[trigger] self.table()[i]).next == d->0,
            d is Some ==> forall|i: int| 0 <= i < self.table().len() ==> d->0 <= (#[trigger] self.table()[i]).next,
    {
        let mut best: Option<u64> = None;
        let mut i: usize = 0;
        while i < self.entries.len()
            invariant
                0 <= i <= self.entries@.len(),
                best == earliest(self.entries@.subrange(0, i as int)),
            decreases self.entries@.len() - i,
        {
            proof {
                assert(self.entries@.subrange(0, i + 1).drop_last() =~= self.entries@.subrange(0, i as int));
            }
            let n = self.entries[i].next;
            best = match best {
                None => Some(n),
                Some(m) => Some(if n < m {
                    n
                } else {
                    m
                }),
            };
            i = i + 1;
        }
        proof {
            assert(self.entries@.subrange(0, i as int) =~= self.entries@);
            law_the_next_deadline_is_the_earliest(self.entries@);
        }
        best
    }

    /// Everything due at `now`, rescheduled from `now` rather than from its
    /// previous deadline: after a stall we want the next frame one period away,
    /// not a burst catching up on missed ones.
    pub fn take_due(&mut self, now: u64) -> (due: Vec<(Id, Payload)>)
        requires
            old(self).wf(),
            forall|i: int|
                0 <= i < old(self).table().len() && (#[trigger] old(self).table()[i]).next <= now
                    ==> now + old(self).table()[i].period <= u64::MAX && old(self).table()[i].count
                    < u64::MAX,
        ensures
            final(self).wf(),
            final(self).table().len() == old(self).table().len(),
            forall|i: int|
                0 <= i < old(self).table().len() ==> final(self).table()[i] == if (
                #[trigger] old(self).table()[i]).next <= now {
                    sent(old(self).table()[i], now)
                } else {
                    old(self).table()[i]
                },
            due@.len() == due_frames(old(self).table(), now).len(),
            forall|k: int|
                0 <= k < due@.len() ==> (#[trigger] due@[k]).0 == due_frames(old(self).table(), now)[k].0
                    && due@[k].1@ == due_frames(old(self).table(), now)[k].1,
    {
        let ghost t = self.entries@;
        proof {
            assert forall|j: int| 0 <= j < t.len() && (#[trigger] t[j]).next <= now implies now + t[j].period
                <= u64::MAX && t[j].count < u64::MAX by {
                assert(t[j] == old(self).table()[j]);
            }
        }
        let mut due: Vec<(Id, Payload)> = Vec::new();
        let mut i: usize = 0;
        while i < self.entries.len()
            invariant
                0 <= i <= t.len(),
                self.entries@.len() == t.len(),
                forall|j: int|
                    0 <= j < t.len() && (#[trigger] t[j]).next <= now ==> now + t[j].period <= u64::MAX
                        && t[j].count < u64::MAX,
                forall|j: int|
                    0 <= j < i ==> self.entries@[j] == if (#[trigger] t[j]).next <= now {
                        sent(t[j], now)
                    } else {
                        t[j]
                    },
                forall|j: int| i <= j < t.len() ==> #[trigger] self.entries@[j] == t[j],
                due@.len() == due_frames(t.subrange(0, i as int), now).len(),
                forall|k: int|
                    0 <= k < due@.len() ==> (#[trigger] due@[k]).0 == due_frames(t.subrange(0, i as int), now)[k].0
                        && due@[k].1@ == due_frames(t.subrange(0, i as int), now)[k].1,
            decreases t.len() - i,
        {
            proof {
                assert(t.subrange(0, i + 1).drop_last() =~= t.subrange(0, i as int));
                assert(t.subrange(0, i + 1).last() == t[i as int]);
            }
            if self.entries[i].next <= now {
                let p = self.entries[i].period;
                let c = self.entries[i].count;
                self.entries[i].next = now + p;
                self.entries[i].count = c + 1;
                let id = self.entries[i].id;
                let data = self.entries[i].data;
                due.push((id, data));
            }
            i = i + 1;
        }
        proof {
            assert(t.subrange(0, i as int) =~= t);
            assert forall|a: int, b: int| 0 <= a < b < self.entries@.len() implies key_less(
                #[trigger] self.entries@[a].key@,
                #[trigger] self.entries@[b].key@,
            ) by {
                assert(key_less(t[a].key@, t[b].key@));
            }
        }
        due
    }

    /// Frames sent so far, per key, in key order.
    pub fn counts(&self) -> (c: Vec<(String, u64)>)
        ensures
            c@.len() == self.table().len(),
            forall|i: int|
                0 <= i < c@.len() ==> (#[trigger] c@[i]).0@ == self.table()[i].key@ && c@[i].1
                    == self.table()[i].count,
    {
        let mut c: Vec<(String, u64)> = Vec::new();
        let mut i: usize = 0;
        while i < self.entries.len()
            invariant
                0 <= i <= self.entries@.len(),
                c@.len() == i,
                forall|j: int|
                    0 <= j < i ==> (#[trigger] c@[j]).0@ == self.entries@[j].key@ && c@[j].1
                        == self.entries@[j].count,
            decreases self.entries@.len() - i,
        {
            let k = self.entries[i].key.clone();
            c.push((k, self.entries[i].count));
            i = i + 1;
        }
        c
    }
}

/// Re-arming a key keeps the frames it has sent: setting a send that is
/// already running changes its frame and period, not its history.
pub proof fn law_rearming_keeps_the_count(t: Seq<Entry>, key: Seq<char>, i: int)
    requires
        in_key_order(t),
        0 <= i < t.len(),
        t[i].key@ == key,
    ensures
        position_of(t, key) == Some(i),
        count_of(t, key) == t[i].count,
{
    let p = position_of(t, key)->0;
    if p != i {
        lemma_key_less_irreflexive(key);
        if p < i {
            assert(key_less(t[p].key@, t[i].key@));
        } else {
            assert(key_less(t[i].key@, t[p].key@));
        }
    }
}

/// A send is never early: an entry that is not yet due is neither sent nor
/// touched, and one that is sent is next due exactly one period later.
pub proof fn law_sends_keep_their_period(e: Entry, now: u64)
    requires
        e.next <= now,
        now + e.period <= u64::MAX,
        e.count < u64::MAX,
    ensures
        sent(e, now).next == now + e.period,
        sent(e, now).next > now || e.period == 0,
        sent(e, now).count == e.count + 1,
{
}

/// What one tick sends: every entry due by `now`, and only those, once each,
/// in key order, as (identifier, payload); each one sent is rescheduled one
/// period after `now` (not after its old deadline, so a stall brings no burst
/// of catch-up frames) and counted, and keeps its key, identifier, payload
/// and period.
pub proof fn law_a_tick_sends_what_is_due(t: Seq<Entry>, now: u64)
    ensures
        due_frames(t, now) == t.filter(|e: Entry| e.next <= now).map_values(|e: Entry| (e.id, e.data@)),
        forall|i: int|
            0 <= i < t.len() && (#[trigger] t[i]).next <= now && now + t[i].period <= u64::MAX && t[i].count
                < u64::MAX ==> sent(t[i], now) == (Entry { next: (now + t[i].period) as u64, count: (t[i].count + 1) as u64, ..t[i] }),
    decreases t.len(),
{
    reveal_with_fuel(Seq::<Entry>::filter, 1);
    if t.len() > 0 {
        law_a_tick_sends_what_is_due(t.drop_last(), now);
        let f = |e: Entry| e.next <= now;
        let g = |e: Entry| (e.id, e.data@);
        assert(t.filter(f) == if f(t.last()) {
            t.drop_last().filter(f).push(t.last())
        } else {
            t.drop_last().filter(f)
        });
        if f(t.last()) {
            assert(t.drop_last().filter(f).push(t.last()).map_values(g) =~= t.drop_last().filter(f).map_values(
                g,
            ).push(g(t.last())));
        }
    } else {
        assert(t.filter(|e: Entry| e.next <= now) =~= t);
        assert(t.filter(|e: Entry| e.next <= now).map_values(|e: Entry| (e.id, e.data@)) =~= Seq::<(Id, Seq<u8>)>::empty());
    }
}

/// The next deadline is the earliest one: there is none exactly when nothing
/// is scheduled, and otherwise it is the deadline of some entry and no entry
/// is due before it.
pub proof fn law_the_next_deadline_is_the_earliest(t: Seq<Entry>)
    ensures
        earliest(t) is None <==> t.len() == 0,
        earliest(t) is Some ==> exists|i: int| 0 <= i < t.len() && (#[trigger] t[i]).next == earliest(t)->0,
        earliest(t) is Some ==> forall|i: int| 0 <= i < t.len() ==> earliest(t)->0 <= (#[trigger] t[i]).next,
    decreases t.len(),
{
    if t.len() > 0 {
        let r = t.drop_last();
        law_the_next_deadline_is_the_earliest(r);
        let x = earliest(t)->0;
        assert(t.last() == t[t.len() - 1]);
        assert forall|i: int| 0 <= i < t.len() implies x <= (#[trigger] t[i]).next by {
            if i < t.len() - 1 {
                assert(t[i] == r[i]);
            }
        }
        if x != t.last().next {
            let j = choose|j: int| 0 <= j < r.len() && (#[trigger] r[j]).next == earliest(r)->0;
            assert(t[j] == r[j]);
        }
    }
}

} // verus!
