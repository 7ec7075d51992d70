//! Which messages the message pane lists, and which one is under its cursor.

use vstd::prelude::*;

use crate::canid::{display, spec_display};
use crate::dbc::{Database, MessageDef};
use crate::text::{chars_of, contains_text, find_text, lowercase, to_lowercase};

verus! {

/// Whether a message matches a (lower-case) filter: in its name or its
/// rendered identifier, ignoring case.
pub open spec fn matches_filter(m: MessageDef, needle: Seq<char>) -> bool {
    contains_text(lowercase(m.name@), needle) || contains_text(lowercase(spec_display(m.id)), needle)
}

/// The positions, in order, of the first `n` messages the filter shows: all
/// of them for an empty filter.
pub open spec fn shown(msgs: Seq<MessageDef>, filter: Seq<char>, n: int) -> Seq<usize>
    decreases n,
{
    if n <= 0 {
        Seq::empty()
    } else if filter.len() == 0 || matches_filter(msgs[n - 1], lowercase(filter)) {
        shown(msgs, filter, n - 1).push((n - 1) as usize)
    } else {
        shown(msgs, filter, n - 1)
    }
}

/// The positions of the messages the filter shows (see [`shown`]).
pub fn visible_messages(db: &Database, filter: &str) -> (v: Vec<usize>)
    ensures
        v@ == shown(db.messages@, filter@, db.messages@.len() as int),
        forall|i: int| 0 <= i < db.messages@.len() ==> (v@.contains(i as usize) <==> keeps(#[trigger] db.messages@[i], filter@)),
{
    let f = chars_of(filter);
    let needle = to_lowercase(filter);
    let mut v: Vec<usize> = Vec::new();
    let mut i: usize = 0;
    while i < db.messages.len()
        invariant
            0 <= i <= db.messages@.len(),
            f@ == filter@,
            needle@ == lowercase(filter@),
            v@ == shown(db.messages@, filter@, i as int),
        decreases db.messages@.len() - i,
    {
        let m = &db.messages[i];
        let keep = if f.len() == 0 {
            true
        } else {
            let name = chars_of(to_lowercase(m.name.as_str()).as_str());
            let id = chars_of(to_lowercase(display(m.id).as_str()).as_str());
            find_text(&name, needle.as_str()) || find_text(&id, needle.as_str())
        };
        if keep {
            v.push(i);
        }
        i = i + 1;
    }
    proof {
        law_the_shown_rows_are_the_kept_ones(db.messages@, filter@, i as int);
    }
    v
}

/// The row under the cursor of a list of `shown` rows: the cursor's, or the
/// last when the list has shrunk below it; none in an empty list.
pub fn current_index(shown: usize, cursor: usize) -> (r: Option<usize>)
    ensures
        shown == 0 ==> r is None,
        shown > 0 ==> r == Some(if cursor < shown {
            cursor
        } else {
            (shown - 1) as usize
        }),
{
    if shown == 0 {
        None
    } else if cursor < shown {
        Some(cursor)
    } else {
        Some(shown - 1)
    }
}

/// The filter ignores case: two filters with the same lower-case form (and
/// both empty or both not) show the same messages, so typing `Brake`,
/// `brake` or `BRAKE` lists the same rows.
pub proof fn law_the_filter_ignores_case(msgs: Seq<MessageDef>, f1: Seq<char>, f2: Seq<char>, n: int)
    requires
        lowercase(f1) == lowercase(f2),
        f1.len() == 0 <==> f2.len() == 0,
    ensures
        shown(msgs, f1, n) == shown(msgs, f2, n),
    decreases n,
{
    if n > 0 {
        law_the_filter_ignores_case(msgs, f1, f2, n - 1);
    }
}

/// Whether a filter keeps a message: an empty filter keeps every message, any
/// other one those whose lower-case name or identifier holds the lower-case
/// filter.
pub open spec fn keeps(m: MessageDef, f: Seq<char>) -> bool {
    f.len() == 0 || contains_text(lowercase(m.name@), lowercase(f)) || contains_text(
        lowercase(spec_display(m.id)),
        lowercase(f),
    )
}

/// The rows shown are exactly the messages the filter keeps (see [`keeps`]),
/// each once and in list order.
pub proof fn law_the_shown_rows_are_the_kept_ones(msgs: Seq<MessageDef>, f: Seq<char>, n: int)
    requires
        0 <= n <= usize::MAX,
    ensures
        forall|k: int, l: int| 0 <= k < l < shown(msgs, f, n).len() ==> shown(msgs, f, n)[k] < shown(msgs, f, n)[l],
        forall|k: int| 0 <= k < shown(msgs, f, n).len() ==> shown(msgs, f, n)[k] < n,
        forall|i: int| 0 <= i < n ==> (shown(msgs, f, n).contains(i as usize) <==> keeps(#[trigger] msgs[i], f)),
    decreases n,
{
    if n > 0 {
        law_the_shown_rows_are_the_kept_ones(msgs, f, n - 1);
        let prev = shown(msgs, f, n - 1);
        let cur = shown(msgs, f, n);
        assert(keeps(msgs[n - 1], f) ==> cur == prev.push((n - 1) as usize));
        assert(!keeps(msgs[n - 1], f) ==> cur == prev);
        assert forall|i: int| 0 <= i < n implies (cur.contains(i as usize) <==> keeps(#[trigger] msgs[i], f)) by {
            if i < n - 1 {
                assert(prev.contains(i as usize) <==> keeps(msgs[i], f));
                if cur.contains(i as usize) {
                    let k = choose|k: int| 0 <= k < cur.len() && cur[k] == i as usize;
                    if k < prev.len() {
                        assert(prev[k] == cur[k]);
                    }
                }
                if prev.contains(i as usize) {
                    let k = choose|k: int| 0 <= k < prev.len() && prev[k] == i as usize;
                    assert(cur[k] == prev[k]);
                }
            } else if keeps(msgs[n - 1], f) {
                assert(cur[prev.len() as int] == (n - 1) as usize);
            } else if prev.contains((n - 1) as usize) {
                let k = choose|k: int| 0 <= k < prev.len() && prev[k] == (n - 1) as usize;
                assert(prev[k] < n - 1);
            }
        }
    }
}

} // verus!
