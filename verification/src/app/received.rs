//! The receive table: one row per identifier heard, in identifier order,
//! counting its frames and keeping the last payload. What else a row shows
//! (its name, decoded values, smoothed period) is the caller's, carried as
//! `extra`.

use vstd::prelude::*;

use crate::canid::{Id, key, spec_key};
use crate::transport::Payload;

verus! {

/// One identifier heard.
pub struct RxEntry<T> {
    pub id: Id,
    /// Frames heard with this identifier, stopping at `u64::MAX`.
    pub count: u64,
    /// The last payload heard.
    pub data: Payload,
    pub extra: T,
}

/// Whether the rows' identifier keys are strictly increasing: one row per
/// identifier, standard and extended told apart (see [`spec_key`]).
pub open spec fn in_id_order<T>(rows: Seq<RxEntry<T>>) -> bool {
    forall|i: int, j: int| 0 <= i < j < rows.len() ==> spec_key(#[trigger] rows[i].id) < spec_key(#[trigger] rows[j].id)
}

/// How many rows have a key below `k`: where a row keyed `k` sits or goes.
pub open spec fn slot<T>(rows: Seq<RxEntry<T>>, k: u32) -> int
    decreases rows.len(),
{
    if rows.len() == 0 {
        0
    } else if spec_key(rows.last().id) < k {
        rows.len() as int
    } else {
        slot(rows.drop_last(), k)
    }
}

/// The table after hearing a frame of `id` carrying `data`, the caller's part
/// of its row now `extra`: a row already keyed like `id` counts one more frame
/// (stopping at `u64::MAX`) and takes the new identifier, payload and extra; a
/// new identifier gets a row of its own, counted once, in key order.
pub open spec fn heard<T>(rows: Seq<RxEntry<T>>, id: Id, data: Payload, extra: T) -> Seq<RxEntry<T>> {
    let p = slot(rows, spec_key(id));
    if p < rows.len() && spec_key(rows[p].id) == spec_key(id) {
        rows.update(
            p,
            RxEntry { id, count: if rows[p].count < u64::MAX { (rows[p].count + 1) as u64 } else { u64::MAX }, data, extra },
        )
    } else {
        rows.insert(p, RxEntry { id, count: 1, data, extra })
    }
}

/// Whether some row is keyed `k`.
pub open spec fn holds_key<T>(rows: Seq<RxEntry<T>>, k: u32) -> bool {
    exists|i: int| 0 <= i < rows.len() && spec_key(#[trigger] rows[i].id) == k
}

/// Hearing a frame, in terms of the whole table: a new identifier adds one
/// row and a known one adds none; the identifier's row now holds the frame's
/// identifier, payload and the caller's part, counted once more than before
/// (once, for a new row; stopping at `u64::MAX`); every row keyed otherwise
/// is kept as it was, and no other row appears. So a standard and an
/// extended frame with the same number keep rows of their own.
pub proof fn law_hearing_a_frame<T>(rows: Seq<RxEntry<T>>, id: Id, data: Payload, extra: T)
    requires
        in_id_order(rows),
    ensures
        heard(rows, id, data, extra).len() == rows.len() + if holds_key(rows, spec_key(id)) {
            0int
        } else {
            1int
        },
        in_id_order(heard(rows, id, data, extra)),
        exists|p: int|
            0 <= p < heard(rows, id, data, extra).len() && #[trigger] heard(rows, id, data, extra)[p] == (RxEntry {
                id,
                count: if holds_key(rows, spec_key(id)) {
                    let c = rows[slot(rows, spec_key(id))].count;
                    if c < u64::MAX {
                        (c + 1) as u64
                    } else {
                        u64::MAX
                    }
                } else {
                    1u64
                },
                data,
                extra,
            }),
        forall|i: int|
            0 <= i < rows.len() && spec_key(#[trigger] rows[i].id) != spec_key(id) ==> heard(
                rows,
                id,
                data,
                extra,
            ).contains(rows[i]),
        forall|i: int|
            0 <= i < heard(rows, id, data, extra).len() && spec_key((#[trigger] heard(rows, id, data, extra)[i]).id)
                != spec_key(id) ==> rows.contains(heard(rows, id, data, extra)[i]),
{
    let k = spec_key(id);
    let h = heard(rows, id, data, extra);
    lemma_slot(rows, k);
    let p = slot(rows, k);
    let found = p < rows.len() && spec_key(rows[p].id) == k;
    if found {
        assert(holds_key(rows, k));
        let c = rows[p].count;
        assert(h[p] == (RxEntry { id, count: if c < u64::MAX { (c + 1) as u64 } else { u64::MAX }, data, extra }));
        assert(0 <= p < h.len());
        assert forall|i: int| 0 <= i < rows.len() && spec_key(#[trigger] rows[i].id) != k implies h.contains(rows[i]) by {
            assert(h[i] == rows[i]);
        }
        assert forall|i: int| 0 <= i < h.len() && spec_key((#[trigger] h[i]).id) != k implies rows.contains(h[i]) by {
            assert(h[i] == rows[i]);
        }
        assert forall|a: int, b: int| 0 <= a < b < h.len() implies spec_key(#[trigger] h[a].id) < spec_key(
            #[trigger] h[b].id,
        ) by {
            assert(spec_key(rows[a].id) < spec_key(rows[b].id));
        }
    } else {
        assert(!holds_key(rows, k)) by {
            if holds_key(rows, k) {
                let i = choose|i: int| 0 <= i < rows.len() && spec_key(#[trigger] rows[i].id) == k;
                if i > p {
                    assert(spec_key(rows[p].id) < spec_key(rows[i].id));
                }
            }
        }
        assert(h[p] == (RxEntry { id, count: 1u64, data, extra }));
        assert(0 <= p < h.len());
        assert forall|i: int| 0 <= i < rows.len() && spec_key(#[trigger] rows[i].id) != k implies h.contains(rows[i]) by {
            if i < p {
                assert(h[i] == rows[i]);
            } else {
                assert(h[i + 1] == rows[i]);
            }
        }
        assert forall|i: int| 0 <= i < h.len() && spec_key((#[trigger] h[i]).id) != k implies rows.contains(h[i]) by {
            if i < p {
                assert(h[i] == rows[i]);
            } else if i > p {
                assert(h[i] == rows[i - 1]);
            }
        }
        assert forall|a: int, b: int| 0 <= a < b < h.len() implies spec_key(#[trigger] h[a].id) < spec_key(
            #[trigger] h[b].id,
        ) by {
            if b < p {
                assert(h[a] == rows[a] && h[b] == rows[b]);
            } else if b == p {
                assert(h[a] == rows[a]);
            } else if a == p {
                assert(h[b] == rows[b - 1]);
            } else if a < p {
                assert(h[a] == rows[a] && h[b] == rows[b - 1]);
            } else {
                assert(h[a] == rows[a - 1] && h[b] == rows[b - 1]);
            }
        }
    }
}

pub struct Received<T> {
    rows: Vec<RxEntry<T>>,
}

proof fn lemma_slot<T>(rows: Seq<RxEntry<T>>, k: u32)
    requires
        in_id_order(rows),
    ensures
        0 <= slot(rows, k) <= rows.len(),
        forall|i: int| 0 <= i < slot(rows, k) ==> spec_key(#[trigger] rows[i].id) < k,
        forall|i: int| slot(rows, k) <= i < rows.len() ==> k <= spec_key(#[trigger] rows[i].id),
    decreases rows.len(),
{
    if rows.len() > 0 {
        let d = rows.drop_last();
        assert(in_id_order(d)) by {
            assert forall|i: int, j: int| 0 <= i < j < d.len() implies spec_key(#[trigger] d[i].id) < spec_key(
                #[trigger] d[j].id,
            ) by {
                assert(d[i] == rows[i] && d[j] == rows[j]);
            }
        }
        lemma_slot(d, k);
        if spec_key(rows.last().id) < k {
            assert forall|i: int| 0 <= i < rows.len() implies spec_key(#[trigger] rows[i].id) < k by {
                if i < rows.len() - 1 {
                    assert(spec_key(rows[i].id) < spec_key(rows[rows.len() - 1].id));
                }
            }
        } else {
            assert forall|i: int| 0 <= i < slot(rows, k) implies spec_key(#[trigger] rows[i].id) < k by {
                assert(rows[i] == d[i]);
            }
            assert forall|i: int| slot(rows, k) <= i < rows.len() implies k <= spec_key(#[trigger] rows[i].id) by {
                if i < rows.len() - 1 {
                    assert(rows[i] == d[i]);
                }
            }
        }
    }
}

impl<T> Received<T> {
    /// The rows, in identifier order.
    pub closed spec fn rows(&self) -> Seq<RxEntry<T>> {
        self.rows@
    }

    /// The table's invariant: one row per identifier, in key order.
    #[verifier::type_invariant]
    spec fn wf(&self) -> bool {
        in_id_order(self.rows@)
    }

    pub fn new() -> (t: Self)
        ensures
            t.rows() == Seq::<RxEntry<T>>::empty(),
    {
        Received { rows: Vec::new() }
    }

    /// How many identifiers have been heard; the rows are one per identifier,
    /// in key order.
    pub fn len(&self) -> (n: usize)
        ensures
            n == self.rows().len(),
            in_id_order(self.rows()),
    {
        proof {
            use_type_invariant(self);
        }
        self.rows.len()
    }

    /// Row `i`, when there is one.
    pub fn row(&self, i: usize) -> (r: Option<&RxEntry<T>>)
        ensures
            match r {
                Some(e) => i < self.rows().len() && *e == self.rows()[i as int],
                None => i >= self.rows().len(),
            },
    {
        if i < self.rows.len() {
            Some(&self.rows[i])
        } else {
            None
        }
    }

    /// Forget every row.
    pub fn clear(&mut self)
        ensures
            final(self).rows() == Seq::<RxEntry<T>>::empty(),
    {
        self.rows = Vec::new();
    }

    /// The row keyed like `id` (see [`slot`]).
    pub fn find(&self, id: Id) -> (r: Option<usize>)
        ensures
            match r {
                Some(i) => i < self.rows().len() && spec_key(self.rows()[i as int].id) == spec_key(id)
                    && i == slot(self.rows(), spec_key(id)),
                None => forall|i: int| 0 <= i < self.rows().len() ==> spec_key(#[trigger] self.rows()[i].id) != spec_key(id),
            },
    {
        proof {
            use_type_invariant(self);
        }
        let k = key(id);
        proof {
            lemma_slot(self.rows@, k);
        }
        let mut i: usize = 0;
        while i < self.rows.len()
            invariant
                0 <= i <= self.rows@.len(),
                k == spec_key(id),
                in_id_order(self.rows@),
                forall|j: int| 0 <= j < i ==> spec_key(#[trigger] self.rows@[j].id) < k,
            decreases self.rows@.len() - i,
        {
            let rk = key(self.rows[i].id);
            if rk == k {
                proof {
                    lemma_slot(self.rows@, k);
                    let sl = slot(self.rows@, k);
                    if (i as int) < sl {
                        assert(spec_key(self.rows@[i as int].id) < k);
                    } else if (i as int) > sl {
                        assert(k <= spec_key(self.rows@[sl].id));
                        assert(spec_key(self.rows@[sl].id) < spec_key(self.rows@[i as int].id));
                    }
                }
                return Some(i);
            }
            if rk > k {
                proof {
                    assert forall|j: int| 0 <= j < self.rows@.len() implies spec_key(#[trigger] self.rows@[j].id) != k by {
                        if j > i {
                            assert(spec_key(self.rows@[i as int].id) < spec_key(self.rows@[j].id));
                        }
                    }
                }
                return None;
            }
            i = i + 1;
        }
        None
    }

    /// Take in a frame of `id` carrying `data` (see [`heard`]).
    pub fn record(&mut self, id: Id, data: Payload, extra: T)
        ensures
            final(self).rows() == heard(old(self).rows(), id, data, extra),
    {
        proof {
            use_type_invariant(&*self);
        }
        let mut rows: Vec<RxEntry<T>> = Vec::new();
        std::mem::swap(&mut rows, &mut self.rows);
        let k = key(id);
        proof {
            lemma_slot(rows@, k);
        }
        let mut p: usize = 0;
        while p < rows.len() && key(rows[p].id) < k
            invariant
                0 <= p <= rows@.len(),
                k == spec_key(id),
                in_id_order(rows@),
                rows@ == old(self).rows@,
                forall|j: int| 0 <= j < p ==> spec_key(#[trigger] rows@[j].id) < k,
                p <= slot(rows@, k),
                0 <= slot(rows@, k) <= rows@.len(),
                forall|i: int| slot(rows@, k) <= i < rows@.len() ==> k <= spec_key(#[trigger] rows@[i].id),
            decreases rows@.len() - p,
        {
            p = p + 1;
        }
        assert(p == slot(rows@, k)) by {
            if p < slot(rows@, k) {
                assert(spec_key(rows@[p as int].id) < k);
            }
        }
        let ghost before = rows@;
        if p < rows.len() && key(rows[p].id) == k {
            let old_count = rows[p].count;
            let count = if old_count < u64::MAX { old_count + 1 } else { u64::MAX };
            rows.set(p, RxEntry { id, count, data, extra });
            proof {
                assert forall|i: int, j: int| 0 <= i < j < rows@.len() implies spec_key(
                    #[trigger] rows@[i].id,
                ) < spec_key(#[trigger] rows@[j].id) by {
                    if i == p {
                        assert(spec_key(before[j].id) > spec_key(before[i].id));
                    } else if j == p {
                        assert(spec_key(before[j].id) > spec_key(before[i].id));
                    }
                }
            }
        } else {
            rows.insert(p, RxEntry { id, count: 1, data, extra });
            proof {
                assert forall|i: int, j: int| 0 <= i < j < rows@.len() implies spec_key(
                    #[trigger] rows@[i].id,
                ) < spec_key(#[trigger] rows@[j].id) by {
                    if j == p {
                        assert(rows@[i] == before[i]);
                    } else if i == p {
                        assert(rows@[j] == before[j - 1]);
                        assert(k <= spec_key(before[j - 1].id));
                    } else if j < p {
                        assert(rows@[i] == before[i] && rows@[j] == before[j]);
                    } else if i < p {
                        assert(rows@[i] == before[i] && rows@[j] == before[j - 1]);
                    } else {
                        assert(rows@[i] == before[i - 1] && rows@[j] == before[j - 1]);
                    }
                }
            }
        }
        self.rows = rows;
    }

    /// Replace the caller's part of row `i`, keeping its identifier, count
    /// and payload.
    pub fn set_extra(&mut self, i: usize, extra: T)
        requires
            i < old(self).rows().len(),
        ensures
            final(self).rows() == old(self).rows().update(
                i as int,
                RxEntry { extra, ..old(self).rows()[i as int] },
            ),
    {
        proof {
            use_type_invariant(&*self);
        }
        let mut rows: Vec<RxEntry<T>> = Vec::new();
        std::mem::swap(&mut rows, &mut self.rows);
        let id = rows[i].id;
        let count = rows[i].count;
        let data = rows[i].data;
        rows.set(i, RxEntry { id, count, data, extra });
        proof {
            assert forall|a: int, b: int| 0 <= a < b < rows@.len() implies spec_key(#[trigger] rows@[a].id)
                < spec_key(#[trigger] rows@[b].id) by {
                assert(rows@[a].id == old(self).rows@[a].id);
                assert(rows@[b].id == old(self).rows@[b].id);
            }
        }
        self.rows = rows;
    }
}

} // verus!
