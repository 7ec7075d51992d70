//! The database model, plus everything that turns frames into named values.
//!
//! Nothing here does I/O or reads a clock. A signal is described here by its
//! bit layout; its physical scale (factor, offset, declared limits) is floating
//! point and is applied by the caller around the raw values this module works
//! with.

pub mod codec;
pub mod load;
pub mod mux;

use std::collections::{BTreeMap, HashMap};

use vstd::prelude::*;

use crate::canid::{Id, key, spec_key};
use crate::order::{
    key_less, keyed, keyed_as, law_sorting_keeps_equal_keys_in_order, law_sorting_orders_keys, lemma_sorted_items_come_from,
    sort_by_key, sorted_by_key,
};
use crate::paths::{file_name, path_file_name};
use crate::text::{chars_of, lowercase, push_chars, push_signed_decimal, push_str, signed_decimal, string_of, to_lowercase};
use load::ascii_lower;

verus! {

/// How a signal relates to its message's multiplexor, if at all.
#[derive(Clone, Debug, PartialEq, Eq)]
pub enum Mux {
    /// Always present.
    Plain,
    /// This signal *is* the multiplexor (`M` in the DBC).
    Selector,
    /// Present only when the multiplexor holds one of these values (`m3`).
    SelectedBy(Vec<u64>),
}

impl Default for Mux {
    fn default() -> (m: Self)
        ensures
            m is Plain,
    {
        Mux::Plain
    }
}

#[derive(Clone, Debug)]
pub struct SignalDef {
    pub name: String,
    /// DBC `start_bit`: LSB position for little-endian, MSB position for big-endian.
    pub start: u16,
    pub len: u16,
    pub big_endian: bool,
    pub signed: bool,
    pub unit: String,
    /// `VAL_` table, keyed by *raw* value.
    pub choices: BTreeMap<i64, String>,
    pub mux: Mux,
}

impl SignalDef {
    /// The `VAL_` name for a raw value, if the table has one.
    pub fn choice(&self, raw: i64) -> (r: Option<&String>)
        ensures
            match r {
                Some(name) => self.choices@.contains_key(raw) && self.choices@[raw] == *name,
                None => !self.choices@.contains_key(raw),
            },
    {
        broadcast use vstd::std_specs::btree::group_btree_axioms;
        broadcast use vstd::laws_cmp::group_laws_cmp;

        self.choices.get(&raw)
    }

    /// ` (0=OFF, 1=ON)`: the first six entries of the value table, lowest
    /// raw value first, to show beside a prompt; nothing when the table is
    /// empty.
    pub fn choices_hint(&self) -> (r: Option<String>)
        ensures
            self.choices@.dom().len() == 0 <==> r is None,
            match r {
                Some(h) => exists|keys: Seq<i64>|
                    in_raw_order(keys, self.choices@) && h@ == " ("@ + joined_choices(
                        self.choices@,
                        first_six(keys),
                    ) + ")"@,
                None => true,
            },
    {
        broadcast use vstd::std_specs::btree::group_btree_axioms;

        proof {
            lemma_raw_values_ordered();
        }
        let entries = self.choices.iter();
        let ghost es = vstd::std_specs::iter::IteratorSpec::remaining(&entries);
        let ghost keys = es.map_values(|kv: (&i64, &String)| *kv.0);
        proof {
            assert(entries == vstd::std_specs::btree::spec_btree_map_iter(&self.choices));
            lemma_increasing_keys(keys);
        }
        let mut out: Vec<char> = Vec::new();
        let mut shown: usize = 0;
        for entry in it: entries
            invariant
                it.seq() == es,
                es.len() == self.choices@.dom().len(),
                keys == es.map_values(|kv: (&i64, &String)| *kv.0),
                forall|i: int|
                    0 <= i < es.len() ==> self.choices@.contains_key(*(#[trigger] es[i]).0) && self.choices@[*es[i].0]
                        == *es[i].1,
                shown as int == if it.index() < 6 { it.index() } else { 6 },
                out@ == joined_choices(self.choices@, keys.take(shown as int)),
        {
            let (k, v) = entry;
            if shown < 6 {
                proof {
                    assert(es[it.index()] == entry);
                    assert(keys[it.index()] == *k);
                }
                if shown > 0 {
                    push_str(&mut out, ", ");
                }
                push_signed_decimal(&mut out, *k);
                push_str(&mut out, "=");
                push_str(&mut out, v.as_str());
                proof {
                    let t = keys.take(shown + 1);
                    assert(t.drop_last() =~= keys.take(shown as int));
                    assert(t.last() == *k);
                }
                shown += 1;
            }
        }
        if shown == 0 {
            return None;
        }
        let mut hint: Vec<char> = Vec::new();
        push_str(&mut hint, " (");
        push_chars(&mut hint, &out);
        push_str(&mut hint, ")");
        proof {
            assert forall|k2: i64| #[trigger] self.choices@.contains_key(k2) implies keys.contains(k2) by {
                assert(es.contains((&k2, &self.choices@[k2])));
                let j = choose|j: int| 0 <= j < es.len() && es[j] == (&k2, &self.choices@[k2]);
                assert(keys[j] == k2);
            }
            assert forall|i: int| 0 <= i < keys.len() implies self.choices@.contains_key(#[trigger] keys[i]) by {
                assert(self.choices@.contains_key(*es[i].0));
            }
            assert(keys.take(shown as int) =~= first_six(keys));
            assert(in_raw_order(keys, self.choices@));
        }
        Some(string_of(&hint))
    }

    /// The raw value whose `VAL_` name is `text` when ASCII letters are
    /// compared without regard to case; the lowest such value when several
    /// names match.
    pub fn choice_named(&self, text: &str) -> (r: Option<i64>)
        ensures
            match r {
                Some(raw) => {
                    &&& self.choices@.contains_key(raw)
                    &&& same_ignoring_case(self.choices@[raw]@, text@)
                    &&& forall|k: i64|
                        #[trigger] self.choices@.contains_key(k) && k < raw ==> !same_ignoring_case(
                            self.choices@[k]@,
                            text@,
                        )
                },
                None => forall|k: i64|
                    #[trigger] self.choices@.contains_key(k) ==> !same_ignoring_case(self.choices@[k]@, text@),
            },
    {
        broadcast use vstd::std_specs::btree::group_btree_axioms;

        let want = chars_of(text);
        proof {
            lemma_raw_values_ordered();
        }
        let entries = self.choices.iter();
        let ghost es = vstd::std_specs::iter::IteratorSpec::remaining(&entries);
        let ghost keys = es.map_values(|kv: (&i64, &String)| *kv.0);
        proof {
            assert(entries == vstd::std_specs::btree::spec_btree_map_iter(&self.choices));
            lemma_increasing_keys(keys);
        }
        for entry in it: entries
            invariant
                want@ == text@,
                it.seq() == es,
                es.len() == self.choices@.dom().len(),
                keys == es.map_values(|kv: (&i64, &String)| *kv.0),
                forall|i: int, j: int| 0 <= i < j < keys.len() ==> keys[i] < keys[j],
                forall|i: int|
                    0 <= i < es.len() ==> self.choices@.contains_key(*(#[trigger] es[i]).0) && self.choices@[*es[i].0]
                        == *es[i].1,
                forall|k: i64| #[trigger] self.choices@.contains_key(k) ==> es.contains((&k, &self.choices@[k])),
                forall|j: int|
                    0 <= j < it.index() ==> !same_ignoring_case((*(#[trigger] es[j]).1)@, text@),
        {
            let (k, v) = entry;
            if same_text(v.as_str(), &want) {
                proof {
                    let here = it.index();
                    assert(es[here] == entry);
                    assert forall|k2: i64|
                        #[trigger] self.choices@.contains_key(k2) && k2 < *k implies !same_ignoring_case(
                        self.choices@[k2]@,
                        text@,
                    ) by {
                        assert(es.contains((&k2, &self.choices@[k2])));
                        let j = choose|j: int| 0 <= j < es.len() && es[j] == (&k2, &self.choices@[k2]);
                        assert(keys[j] == k2);
                        assert(keys[here] == *k);
                        if j >= here {
                            assert(j != here);
                            assert(keys[here] < keys[j]);
                        }
                    }
                }
                return Some(*k);
            }
        }
        proof {
            assert forall|k2: i64| #[trigger] self.choices@.contains_key(k2) implies !same_ignoring_case(
                self.choices@[k2]@,
                text@,
            ) by {
                assert(es.contains((&k2, &self.choices@[k2])));
                let j = choose|j: int| 0 <= j < es.len() && es[j] == (&k2, &self.choices@[k2]);
                assert(!same_ignoring_case((*es[j].1)@, text@));
            }
        }
        None
    }
}

/// `raw=NAME` for one entry of a value table.
pub open spec fn choice_entry(m: Map<i64, String>, k: i64) -> Seq<char> {
    signed_decimal(k as int) + "="@ + m[k]@
}

/// The entries for `keys`, in that order, separated by `, `.
pub open spec fn joined_choices(m: Map<i64, String>, keys: Seq<i64>) -> Seq<char>
    decreases keys.len(),
{
    if keys.len() == 0 {
        Seq::empty()
    } else if keys.len() == 1 {
        choice_entry(m, keys[0])
    } else {
        joined_choices(m, keys.drop_last()) + ", "@ + choice_entry(m, keys.last())
    }
}

/// At most the first six of `keys`.
pub open spec fn first_six(keys: Seq<i64>) -> Seq<i64> {
    if keys.len() <= 6 {
        keys
    } else {
        keys.take(6)
    }
}

/// Whether `keys` lists the raw values of a table once each, lowest first.
pub open spec fn in_raw_order(keys: Seq<i64>, m: Map<i64, String>) -> bool {
    &&& forall|i: int, j: int| 0 <= i < j < keys.len() ==> keys[i] < keys[j]
    &&& forall|i: int| 0 <= i < keys.len() ==> m.contains_key(#[trigger] keys[i])
    &&& forall|k: i64| #[trigger] m.contains_key(k) ==> keys.contains(k)
}

/// Raw values are ordered as integers, so a value table iterates in raw order.
proof fn lemma_raw_values_ordered()
    ensures
        vstd::std_specs::btree::key_obeys_cmp_spec::<i64>(),
{
    broadcast use vstd::std_specs::btree::group_btree_axioms;
    broadcast use vstd::laws_cmp::group_laws_cmp;

    assert(vstd::laws_cmp::obeys_cmp::<i64>());
}

proof fn lemma_increasing_keys(keys: Seq<i64>)
    requires
        vstd::std_specs::btree::increasing_seq(keys),
    ensures
        forall|i: int, j: int| 0 <= i < j < keys.len() ==> keys[i] < keys[j],
{
    broadcast use vstd::laws_cmp::group_laws_cmp;

    assert(vstd::laws_cmp::obeys_cmp::<i64>());
    assert forall|i: int, j: int| 0 <= i < j < keys.len() implies keys[i] < keys[j] by {
        vstd::std_specs::btree::axiom_increasing_seq_meaning(keys);
        assert(vstd::std_specs::cmp::OrdSpec::cmp_spec(&keys[i], &keys[j]) is Less);
    }
}

fn same_text(a: &str, b: &Vec<char>) -> (r: bool)
    ensures
        r == same_ignoring_case(a@, b@),
{
    let cs = chars_of(a);
    if cs.len() != b.len() {
        return false;
    }
    let mut i: usize = 0;
    while i < cs.len()
        invariant
            cs@ == a@,
            cs@.len() == b@.len(),
            0 <= i <= cs@.len(),
            forall|j: int| 0 <= j < i ==> ascii_lower(cs@[j]) == ascii_lower(b@[j]),
        decreases cs@.len() - i,
    {
        if !same_letter(cs[i], b[i]) {
            return false;
        }
        i += 1;
    }
    true
}

fn same_letter(a: char, b: char) -> (r: bool)
    ensures
        r == (ascii_lower(a) == ascii_lower(b)),
{
    let x: u32 = if 'A' <= a && a <= 'Z' { (a as u32) + 32 } else { a as u32 };
    let y: u32 = if 'A' <= b && b <= 'Z' { (b as u32) + 32 } else { b as u32 };
    x == y
}

/// Two names that differ at most in the case of ASCII letters.
pub open spec fn same_ignoring_case(a: Seq<char>, b: Seq<char>) -> bool {
    a.len() == b.len() && forall|i: int| 0 <= i < a.len() ==> ascii_lower(a[i]) == ascii_lower(b[i])
}

#[derive(Clone, Debug)]
pub struct MessageDef {
    pub id: Id,
    pub name: String,
    pub len: usize,
    /// `GenMsgCycleTime`, when the file carries it. Used as the default send period.
    pub cycle_time_ms: Option<u32>,
    pub signals: Vec<SignalDef>,
}

/// Whether some signal of the message is its multiplexor.
pub open spec fn spec_is_multiplexed(msg: MessageDef) -> bool {
    exists|i: int| 0 <= i < msg.signals.len() && (#[trigger] msg.signals[i]).mux is Selector
}

impl MessageDef {
    pub fn is_multiplexed(&self) -> (r: bool)
        ensures
            r == spec_is_multiplexed(*self),
    {
        let mut i: usize = 0;
        while i < self.signals.len()
            invariant
                0 <= i <= self.signals.len(),
                forall|j: int| 0 <= j < i ==> !(self.signals[j].mux is Selector),
            decreases self.signals.len() - i,
        {
            if matches!(self.signals[i].mux, Mux::Selector) {
                return true;
            }
            i = i + 1;
        }
        false
    }
}

/// Messages paired with their names in lower case, the order the message
/// pane lists them in.
pub open spec fn by_lower_name(msgs: Seq<MessageDef>) -> Seq<(Seq<char>, MessageDef)> {
    msgs.map_values(|m: MessageDef| (lowercase(m.name@), m))
}

/// The messages of a database, sorted by lower-case name; messages whose
/// names match keep their order.
pub open spec fn sorted_messages(msgs: Seq<MessageDef>) -> Seq<MessageDef> {
    sorted_by_key(by_lower_name(msgs)).map_values(|p: (Seq<char>, MessageDef)| p.1)
}

/// Identifier key → position of the last of the first `n` messages with that
/// key.
pub open spec fn id_index(msgs: Seq<MessageDef>, n: int) -> Map<u32, usize>
    decreases n,
{
    if n <= 0 {
        Map::empty()
    } else {
        id_index(msgs, n - 1).insert(spec_key(msgs[n - 1].id), (n - 1) as usize)
    }
}

proof fn lemma_id_index_bounds(msgs: Seq<MessageDef>, n: int)
    requires
        0 <= n <= msgs.len(),
    ensures
        forall|k: u32| #[trigger] id_index(msgs, n).contains_key(k) ==> id_index(msgs, n)[k] < n,
    decreases n,
{
    if n > 0 {
        lemma_id_index_bounds(msgs, n - 1);
        let m = id_index(msgs, n - 1);
        assert forall|k: u32| #[trigger] id_index(msgs, n).contains_key(k) implies id_index(msgs, n)[k] < n by {
            if k != spec_key(msgs[n - 1].id) {
                assert(m.contains_key(k));
            }
        }
    }
}

#[derive(Clone, Debug)]
pub struct Database {
    pub path: String,
    /// Sorted by name, because that is the order the message pane shows.
    pub messages: Vec<MessageDef>,
    /// Identifier key → position in `messages`, for the receive path.
    pub by_id: HashMap<u32, usize>,
}

impl Database {
    /// The lookup table matches the messages.
    pub open spec fn wf(&self) -> bool {
        &&& self.by_id@ == id_index(self.messages@, self.messages@.len() as int)
        &&& vstd::std_specs::hash::obeys_key_model::<u32>()
        &&& vstd::std_specs::hash::builds_valid_hashers::<std::hash::RandomState>()
    }

    /// A database of the given messages, sorted by lower-case name.
    pub fn new(path: String, messages: Vec<MessageDef>) -> (db: Database)
        ensures
            db.wf(),
            db.path == path,
            db.messages@ == sorted_messages(messages@),
    {
        broadcast use vstd::std_specs::hash::group_hash_axioms;

        let ghost input = messages@;
        let mut rest = messages;
        let mut pairs: Vec<(Vec<char>, MessageDef)> = Vec::new();
        while rest.len() > 0
            invariant
                pairs@.len() + rest@.len() == input.len(),
                rest@ == input.subrange(pairs@.len() as int, input.len() as int),
                keyed(pairs@) == by_lower_name(input).subrange(0, pairs@.len() as int),
            decreases rest@.len(),
        {
            let ghost k: int = pairs@.len() as int;
            let ghost before = rest@;
            let m = rest.remove(0);
            let lower = to_lowercase(m.name.as_str());
            let cs = chars_of(lower.as_str());
            pairs.push((cs, m));
            proof {
                assert(m == input[k]);
                assert(rest@ =~= input.subrange(k + 1, input.len() as int));
                assert(keyed(pairs@) =~= by_lower_name(input).subrange(0, k + 1));
            }
        }
        proof {
            assert(by_lower_name(input).subrange(0, input.len() as int) =~= by_lower_name(input));
        }
        let sorted = sort_by_key(pairs);
        let ghost order = keyed(sorted@);
        let mut rest2 = sorted;
        let mut out: Vec<MessageDef> = Vec::new();
        while rest2.len() > 0
            invariant
                out@.len() + rest2@.len() == order.len(),
                keyed(rest2@) == order.subrange(out@.len() as int, order.len() as int),
                out@ == order.subrange(0, out@.len() as int).map_values(|p: (Seq<char>, MessageDef)| p.1),
            decreases rest2@.len(),
        {
            let ghost k: int = out@.len() as int;
            let ghost before = keyed(rest2@);
            let p = rest2.remove(0);
            proof {
                assert(before[0] == (p.0@, p.1));
                assert(keyed(rest2@) =~= before.subrange(1, before.len() as int));
            }
            out.push(p.1);
            proof {
                assert(out@ =~= order.subrange(0, k + 1).map_values(|p: (Seq<char>, MessageDef)| p.1));
            }
        }
        proof {
            assert(order.subrange(0, order.len() as int) =~= order);
        }
        let mut by_id: HashMap<u32, usize> = HashMap::new();
        let mut i: usize = 0;
        while i < out.len()
            invariant
                0 <= i <= out@.len(),
                by_id@ == id_index(out@, i as int),
                vstd::std_specs::hash::obeys_key_model::<u32>(),
                vstd::std_specs::hash::builds_valid_hashers::<std::hash::RandomState>(),
            decreases out@.len() - i,
        {
            by_id.insert(key(out[i].id), i);
            i = i + 1;
        }
        Database { path, messages: out, by_id }
    }

    /// The message an identifier belongs to: the last one with that
    /// identifier, if any.
    pub fn by_id(&self, id: Id) -> (m: Option<&MessageDef>)
        requires
            self.wf(),
        ensures
            match m {
                Some(msg) => id_index(self.messages@, self.messages@.len() as int).contains_key(spec_key(id))
                    && *msg == self.messages@[id_index(self.messages@, self.messages@.len() as int)[spec_key(id)] as int],
                None => !id_index(self.messages@, self.messages@.len() as int).contains_key(spec_key(id)),
            },
    {
        broadcast use vstd::std_specs::hash::group_hash_axioms;

        proof {
            lemma_id_index_bounds(self.messages@, self.messages@.len() as int);
        }
        let k = key(id);
        match self.by_id.get(&k) {
            Some(i) => Some(&self.messages[*i]),
            None => None,
        }
    }

    pub fn is_empty(&self) -> (r: bool)
        ensures
            r == (self.messages@.len() == 0),
    {
        self.messages.len() == 0
    }

    /// What the header shows: the file name alone, not the whole path.
    pub fn label(&self) -> (s: String)
        ensures
            s@ == match path_file_name(self.path@) {
                Some(n) => n,
                None => "(no dbc)"@,
            },
    {
        match file_name(self.path.as_str()) {
            Some(n) => n,
            None => String::from_str("(no dbc)"),
        }
    }
}

impl Default for Database {
    fn default() -> (db: Self)
        ensures
            db.wf(),
            db.path@ == Seq::<char>::empty(),
            db.messages@.len() == 0,
    {
        broadcast use vstd::std_specs::hash::group_hash_axioms;

        Database { path: String::new(), messages: Vec::new(), by_id: HashMap::new() }
    }
}


/// The messages of `msgs` whose names are `k` in lower case, in order.
pub open spec fn named_as(msgs: Seq<MessageDef>, k: Seq<char>) -> Seq<MessageDef>
    decreases msgs.len(),
{
    if msgs.len() == 0 {
        Seq::empty()
    } else if lowercase(msgs.last().name@) == k {
        named_as(msgs.drop_last(), k).push(msgs.last())
    } else {
        named_as(msgs.drop_last(), k)
    }
}

proof fn lemma_named_as_pairs(ps: Seq<(Seq<char>, MessageDef)>, k: Seq<char>)
    requires
        forall|i: int| 0 <= i < ps.len() ==> (#[trigger] ps[i]).0 == lowercase(ps[i].1.name@),
    ensures
        named_as(ps.map_values(|p: (Seq<char>, MessageDef)| p.1), k) == keyed_as(ps, k).map_values(
            |p: (Seq<char>, MessageDef)| p.1,
        ),
    decreases ps.len(),
{
    let g = |p: (Seq<char>, MessageDef)| p.1;
    if ps.len() > 0 {
        assert forall|i: int| 0 <= i < ps.drop_last().len() implies (#[trigger] ps.drop_last()[i]).0 == lowercase(
            ps.drop_last()[i].1.name@,
        ) by {
            assert(ps.drop_last()[i] == ps[i]);
        }
        lemma_named_as_pairs(ps.drop_last(), k);
        assert(ps.map_values(g).drop_last() =~= ps.drop_last().map_values(g));
        assert(ps.map_values(g).last() == ps.last().1);
        assert(ps.last() == ps[ps.len() - 1]);
        if ps.last().0 == k {
            assert(keyed_as(ps.drop_last(), k).push(ps.last()).map_values(g) =~= keyed_as(
                ps.drop_last(),
                k,
            ).map_values(g).push(ps.last().1));
        }
    } else {
        assert(ps.map_values(g) =~= Seq::<MessageDef>::empty());
        assert(keyed_as(ps, k).map_values(g) =~= Seq::<MessageDef>::empty());
    }
}

/// The message list is the file's messages sorted by name without regard to
/// case: every message is kept, names come in order, and messages whose names
/// are equal but for case keep the file's order.
pub proof fn law_messages_are_sorted_stably_by_name(msgs: Seq<MessageDef>, k: Seq<char>)
    ensures
        sorted_messages(msgs).len() == msgs.len(),
        forall|i: int, j: int|
            0 <= i < j < msgs.len() ==> !key_less(
                lowercase((#[trigger] sorted_messages(msgs)[j]).name@),
                lowercase((#[trigger] sorted_messages(msgs)[i]).name@),
            ),
        named_as(sorted_messages(msgs), k) == named_as(msgs, k),
{
    let ps = by_lower_name(msgs);
    let sorted = sorted_by_key(ps);
    let g = |p: (Seq<char>, MessageDef)| p.1;
    law_sorting_orders_keys(ps);
    law_sorting_keeps_equal_keys_in_order(ps, k);
    lemma_sorted_items_come_from(ps);
    assert forall|i: int| 0 <= i < ps.len() implies (#[trigger] ps[i]).0 == lowercase(ps[i].1.name@) by {}
    assert forall|i: int| 0 <= i < sorted.len() implies (#[trigger] sorted[i]).0 == lowercase(sorted[i].1.name@) by {
        assert(ps.contains(sorted[i]));
        let j = choose|j: int| 0 <= j < ps.len() && ps[j] == sorted[i];
        assert(ps[j].0 == lowercase(ps[j].1.name@));
    }
    lemma_named_as_pairs(ps, k);
    lemma_named_as_pairs(sorted, k);
    assert(ps.map_values(g) =~= msgs);
    assert forall|i: int, j: int|
        0 <= i < j < msgs.len() implies !key_less(
        lowercase((#[trigger] sorted_messages(msgs)[j]).name@),
        lowercase((#[trigger] sorted_messages(msgs)[i]).name@),
    ) by {
        assert(sorted_messages(msgs)[j] == sorted[j].1);
        assert(sorted_messages(msgs)[i] == sorted[i].1);
        assert(sorted[j].0 == lowercase(sorted[j].1.name@));
        assert(sorted[i].0 == lowercase(sorted[i].1.name@));
    }
}

/// Looking a frame up by its identifier finds a message sent with that
/// identifier, and every message of the file can be found by its identifier:
/// where two share one, the later in the list.
pub proof fn law_lookup_finds_the_identifier(msgs: Seq<MessageDef>, id: Id)
    requires
        msgs.len() <= usize::MAX,
    ensures
        id_index(msgs, msgs.len() as int).contains_key(spec_key(id)) ==> ({
            let i = id_index(msgs, msgs.len() as int)[spec_key(id)] as int;
            0 <= i < msgs.len() && spec_key(msgs[i].id) == spec_key(id) && forall|j: int|
                i < j < msgs.len() ==> spec_key(#[trigger] msgs[j].id) != spec_key(id)
        }),
        (exists|j: int| 0 <= j < msgs.len() && spec_key(#[trigger] msgs[j].id) == spec_key(id)) ==> id_index(
            msgs,
            msgs.len() as int,
        ).contains_key(spec_key(id)),
{
    lemma_index_finds(msgs, msgs.len() as int, spec_key(id));
}

proof fn lemma_index_finds(msgs: Seq<MessageDef>, n: int, k: u32)
    requires
        0 <= n <= msgs.len() <= usize::MAX,
    ensures
        id_index(msgs, n).contains_key(k) ==> ({
            let i = id_index(msgs, n)[k] as int;
            0 <= i < n && spec_key(msgs[i].id) == k && forall|j: int| i < j < n ==> spec_key(#[trigger] msgs[j].id) != k
        }),
        (exists|j: int| 0 <= j < n && spec_key(#[trigger] msgs[j].id) == k) ==> id_index(msgs, n).contains_key(k),
    decreases n,
{
    if n > 0 {
        lemma_index_finds(msgs, n - 1, k);
        let prev = id_index(msgs, n - 1);
        let last = spec_key(msgs[n - 1].id);
        assert(id_index(msgs, n) == prev.insert(last, (n - 1) as usize));
        if last == k {
            assert(id_index(msgs, n)[k] == (n - 1) as usize);
        } else {
            assert(id_index(msgs, n).contains_key(k) == prev.contains_key(k));
            if prev.contains_key(k) {
                assert(id_index(msgs, n)[k] == prev[k]);
            }
            if exists|j: int| 0 <= j < n && spec_key(#[trigger] msgs[j].id) == k {
                let j = choose|j: int| 0 <= j < n && spec_key(#[trigger] msgs[j].id) == k;
                assert(j < n - 1);
            }
        }
    }
}

} // verus!
