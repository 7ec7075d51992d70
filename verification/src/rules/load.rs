//! What the rules file means once parsed: defaults, where to look for it,
//! and checking it against the loaded DBC.
//!
//! A rule naming a signal the DBC does not define would never fire and never
//! explain itself, so every name is checked at load time and anything unknown
//! is reported.

use vstd::prelude::*;

use crate::dbc::{Database, MessageDef};
use crate::paths::{is_file, join, parent, path_join, path_parent};
use crate::text::{push_str, str_eq, string_of};

verus! {

/// Looked for next to the DBC and in the working directory.
pub const DEFAULT_NAME: &'static str = "tuican.rules.toml";

/// A rule is on unless the file says `enabled = false`.
pub fn enabled_by_default() -> (on: bool)
    ensures
        on,
{
    true
}

/// Where to look for a rules file when none was named, best first: beside the
/// DBC (rules belong to a board), then the working directory.
pub open spec fn spec_candidates(dbc: Option<Seq<char>>) -> Seq<Seq<char>> {
    let beside: Seq<Seq<char>> = match dbc {
        Some(p) => match path_parent(p) {
            Some(dir) => seq![path_join(dir, DEFAULT_NAME@)],
            None => Seq::empty(),
        },
        None => Seq::empty(),
    };
    beside.push(DEFAULT_NAME@)
}

/// Where to look for a rules file (see [`spec_candidates`]).
pub fn candidates(dbc: Option<&str>) -> (c: Vec<String>)
    ensures
        c@.len() == spec_candidates(match dbc {
            Some(p) => Some(p@),
            None => None,
        }).len(),
        forall|i: int| 0 <= i < c@.len() ==> (#[trigger] c@[i])@ == spec_candidates(match dbc {
            Some(p) => Some(p@),
            None => None,
        })[i],
{
    let mut c: Vec<String> = Vec::new();
    if let Some(p) = dbc {
        if let Some(dir) = parent(p) {
            c.push(join(dir.as_str(), DEFAULT_NAME));
        }
    }
    c.push(String::from_str(DEFAULT_NAME));
    c
}

/// The first of `paths` that `exists` marks, if any.
pub open spec fn first_marked(paths: Seq<String>, exists: Seq<bool>, n: int) -> Option<String>
    decreases n,
{
    if n <= 0 {
        None
    } else {
        match first_marked(paths, exists, n - 1) {
            Some(p) => Some(p),
            None => if exists[n - 1] {
                Some(paths[n - 1])
            } else {
                None
            },
        }
    }
}

/// The first path that exists, given which do (see [`first_marked`]).
pub fn first_existing(paths: &Vec<String>, exists: &Vec<bool>) -> (found: Option<String>)
    requires
        exists@.len() == paths@.len(),
    ensures
        found == first_marked(paths@, exists@, paths@.len() as int),
{
    let mut i: usize = 0;
    while i < paths.len()
        invariant
            0 <= i <= paths@.len(),
            exists@.len() == paths@.len(),
            first_marked(paths@, exists@, i as int) is None,
        decreases paths@.len() - i,
    {
        if exists[i] {
            proof {
                lemma_first_marked_stays(paths@, exists@, i as int + 1, paths@.len() as int);
            }
            return Some(paths[i].clone());
        }
        i = i + 1;
    }
    None
}

proof fn lemma_first_marked_stays(paths: Seq<String>, exists: Seq<bool>, m: int, n: int)
    requires
        0 <= m <= n,
        first_marked(paths, exists, m) is Some,
    ensures
        first_marked(paths, exists, n) == first_marked(paths, exists, m),
    decreases n - m,
{
    if m < n {
        lemma_first_marked_stays(paths, exists, m, n - 1);
    }
}

proof fn lemma_first_marked_is_one(paths: Seq<String>, exists: Seq<bool>, n: int)
    requires
        0 <= n <= paths.len(),
    ensures
        first_marked(paths, exists, n) matches Some(p) ==> exists|i: int| 0 <= i < n && paths[i] == p,
    decreases n,
{
    if n > 0 {
        lemma_first_marked_is_one(paths, exists, n - 1);
    }
}

/// The rules file to load when the user did not pass one: the first
/// candidate (see [`spec_candidates`]) that is a file right now. Which of
/// them are files is up to the disk; whatever it says, a file found is one of
/// the candidates, and it is the first the disk has (see
/// [`first_existing`]).
pub fn discover(dbc: Option<&str>) -> (found: Option<String>)
    ensures
        found matches Some(f) ==> spec_candidates(match dbc {
            Some(p) => Some(p@),
            None => None,
        }).contains(f@),
{
    let c = candidates(dbc);
    let mut exists: Vec<bool> = Vec::new();
    let mut i: usize = 0;
    while i < c.len()
        invariant
            0 <= i <= c@.len(),
            exists@.len() == i,
        decreases c@.len() - i,
    {
        exists.push(is_file(c[i].as_str()));
        i = i + 1;
    }
    let found = first_existing(&c, &exists);
    proof {
        lemma_first_marked_is_one(c@, exists@, c@.len() as int);
        if found is Some {
            let f = found->0;
            let k = choose|k: int| 0 <= k < c@.len() && c@[k] == f;
            assert(spec_candidates(match dbc {
                Some(p) => Some(p@),
                None => None,
            })[k] == f@);
        }
    }
    found
}

/// The names a condition refers to.
#[derive(Clone, Debug)]
pub struct CondNames {
    pub message: String,
    pub signal: String,
}

/// The names an action refers to, and for a periodic send whether its period
/// is above zero.
#[derive(Clone, Debug)]
pub enum ActNames {
    Assign { message: String, signal: String },
    Send { message: String },
    Cyclic { message: String, period_positive: bool },
    Stop { message: String },
}

/// The position of the first of the first `n` messages named `name`.
pub open spec fn first_named(msgs: Seq<MessageDef>, name: Seq<char>, n: int) -> Option<int>
    decreases n,
{
    if n <= 0 {
        None
    } else {
        match first_named(msgs, name, n - 1) {
            Some(i) => Some(i),
            None => if msgs[n - 1].name@ == name {
                Some(n - 1)
            } else {
                None
            },
        }
    }
}

/// Whether a message defines a signal named `name`.
pub open spec fn has_signal(m: MessageDef, name: Seq<char>) -> bool {
    exists|i: int| 0 <= i < m.signals.len() && (#[trigger] m.signals[i]).name@ == name
}

/// What checking a name against the DBC reports: nothing while no DBC is
/// loaded (rules may be loaded first, and complaining then would be noise);
/// otherwise a message the DBC does not define, or a signal its message (the
/// first of that name) does not carry.
pub open spec fn name_problems(msgs: Seq<MessageDef>, message: Seq<char>, signal: Option<Seq<char>>) -> Seq<Seq<char>> {
    if msgs.len() == 0 {
        Seq::empty()
    } else {
        match first_named(msgs, message, msgs.len() as int) {
            None => seq!["no message named "@ + message + " in this DBC"@],
            Some(i) => match signal {
                Some(s) => if has_signal(msgs[i], s) {
                    Seq::empty()
                } else {
                    seq![message + " has no signal named "@ + s]
                },
                None => Seq::empty(),
            },
        }
    }
}

/// The problems found with the conditions `cs`, in order.
pub open spec fn cond_problems(msgs: Seq<MessageDef>, cs: Seq<CondNames>) -> Seq<Seq<char>>
    decreases cs.len(),
{
    if cs.len() == 0 {
        Seq::empty()
    } else {
        cond_problems(msgs, cs.drop_last()) + name_problems(msgs, cs.last().message@, Some(cs.last().signal@))
    }
}

/// The problems found with one action: its names, and for a periodic send a
/// period that is not above zero.
pub open spec fn act_problem(msgs: Seq<MessageDef>, a: ActNames) -> Seq<Seq<char>> {
    match a {
        ActNames::Assign { message, signal } => name_problems(msgs, message@, Some(signal@)),
        ActNames::Send { message } => name_problems(msgs, message@, None),
        ActNames::Cyclic { message, period_positive } => name_problems(msgs, message@, None) + if period_positive {
            Seq::empty()
        } else {
            seq!["period must be above zero"@]
        },
        ActNames::Stop { .. } => Seq::empty(),
    }
}

/// The problems found with the actions `acts`, in order.
pub open spec fn act_problems(msgs: Seq<MessageDef>, acts: Seq<ActNames>) -> Seq<Seq<char>>
    decreases acts.len(),
{
    if acts.len() == 0 {
        Seq::empty()
    } else {
        act_problems(msgs, acts.drop_last()) + act_problem(msgs, acts.last())
    }
}

/// Everything wrong with a rule, in the order the panel lists it: no actions,
/// no conditions, then each name of its conditions and actions.
pub open spec fn spec_rule_problems(
    msgs: Seq<MessageDef>,
    all: Seq<CondNames>,
    any: Seq<CondNames>,
    then: Seq<ActNames>,
) -> Seq<Seq<char>> {
    (if then.len() == 0 {
        seq!["has no actions, so it does nothing"@]
    } else {
        Seq::empty()
    }) + (if all.len() == 0 && any.len() == 0 {
        seq!["has no conditions, so it never fires"@]
    } else {
        Seq::empty()
    }) + cond_problems(msgs, all) + cond_problems(msgs, any) + act_problems(msgs, then)
}

fn find_message(db: &Database, name: &str) -> (r: Option<usize>)
    ensures
        match r {
            Some(i) => first_named(db.messages@, name@, db.messages@.len() as int) == Some(i as int)
                && i < db.messages@.len(),
            None => first_named(db.messages@, name@, db.messages@.len() as int) is None,
        },
{
    let mut i: usize = 0;
    while i < db.messages.len()
        invariant
            0 <= i <= db.messages@.len(),
            first_named(db.messages@, name@, i as int) is None,
        decreases db.messages@.len() - i,
    {
        if str_eq(db.messages[i].name.as_str(), name) {
            proof {
                lemma_first_named_stays(db.messages@, name@, i as int + 1, db.messages@.len() as int);
            }
            return Some(i);
        }
        i = i + 1;
    }
    None
}

proof fn lemma_first_named_stays(msgs: Seq<MessageDef>, name: Seq<char>, m: int, n: int)
    requires
        0 <= m <= n,
        first_named(msgs, name, m) is Some,
    ensures
        first_named(msgs, name, n) == first_named(msgs, name, m),
    decreases n - m,
{
    if m < n {
        lemma_first_named_stays(msgs, name, m, n - 1);
    }
}

fn message_has_signal(m: &MessageDef, name: &str) -> (r: bool)
    ensures
        r == has_signal(*m, name@),
{
    let mut i: usize = 0;
    while i < m.signals.len()
        invariant
            0 <= i <= m.signals@.len(),
            forall|j: int| 0 <= j < i ==> (#[trigger] m.signals@[j]).name@ != name@,
        decreases m.signals@.len() - i,
    {
        if str_eq(m.signals[i].name.as_str(), name) {
            return true;
        }
        i = i + 1;
    }
    false
}

/// Check a name against the DBC (see [`name_problems`]), adding what is wrong
/// to `out`.
pub fn check(db: &Database, message: &str, signal: Option<&str>, out: &mut Vec<String>)
    ensures
        final(out)@.len() == old(out)@.len() + name_problems(db.messages@, message@, match signal {
            Some(s) => Some(s@),
            None => None,
        }).len(),
        forall|i: int| 0 <= i < old(out)@.len() ==> (#[trigger] final(out)@[i]) == old(out)@[i],
        forall|i: int|
            0 <= i < name_problems(db.messages@, message@, match signal {
                Some(s) => Some(s@),
                None => None,
            }).len() ==> (#[trigger] final(out)@[old(out)@.len() + i])@ == name_problems(
                db.messages@,
                message@,
                match signal {
                    Some(s) => Some(s@),
                    None => None,
                },
            )[i],
{
    if db.is_empty() {
        return;
    }
    let i = match find_message(db, message) {
        Some(i) => i,
        None => {
            let mut t: Vec<char> = Vec::new();
            push_str(&mut t, "no message named ");
            push_str(&mut t, message);
            push_str(&mut t, " in this DBC");
            out.push(string_of(&t));
            return;
        },
    };
    if let Some(s) = signal {
        if !message_has_signal(&db.messages[i], s) {
            let mut t: Vec<char> = Vec::new();
            push_str(&mut t, message);
            push_str(&mut t, " has no signal named ");
            push_str(&mut t, s);
            out.push(string_of(&t));
        }
    }
}

/// The text of each line of `out`.
pub open spec fn texts(out: Seq<String>) -> Seq<Seq<char>> {
    out.map_values(|s: String| s@)
}

proof fn lemma_texts_append(a: Seq<String>, b: Seq<String>, extra: Seq<Seq<char>>)
    requires
        b.len() == a.len() + extra.len(),
        forall|i: int| 0 <= i < a.len() ==> (#[trigger] b[i]) == a[i],
        forall|i: int| 0 <= i < extra.len() ==> (#[trigger] b[a.len() + i])@ == extra[i],
    ensures
        texts(b) == texts(a) + extra,
{
    assert forall|j: int| 0 <= j < b.len() implies #[trigger] texts(b)[j] == (texts(a) + extra)[j] by {
        if j < a.len() {
            assert(b[j] == a[j]);
        } else {
            assert(b[a.len() + (j - a.len())]@ == extra[j - a.len()]);
        }
    }
    assert(texts(b) =~= texts(a) + extra);
}

/// Everything wrong with a rule (see [`spec_rule_problems`]).
pub fn rule_problems(db: &Database, all: &Vec<CondNames>, any: &Vec<CondNames>, then: &Vec<ActNames>) -> (out: Vec<String>)
    ensures
        texts(out@) == spec_rule_problems(db.messages@, all@, any@, then@),
{
    let mut out: Vec<String> = Vec::new();
    if then.len() == 0 {
        out.push(String::from_str("has no actions, so it does nothing"));
    }
    if all.len() == 0 && any.len() == 0 {
        out.push(String::from_str("has no conditions, so it never fires"));
    }
    proof {
        reveal_strlit("has no actions, so it does nothing");
        reveal_strlit("has no conditions, so it never fires");
        assert(texts(out@) =~= (if then@.len() == 0 {
            seq!["has no actions, so it does nothing"@]
        } else {
            Seq::empty()
        }) + (if all@.len() == 0 && any@.len() == 0 {
            seq!["has no conditions, so it never fires"@]
        } else {
            Seq::empty()
        }));
    }
    check_conds(db, all, &mut out);
    check_conds(db, any, &mut out);
    let ghost before = texts(out@);
    let mut k: usize = 0;
    while k < then.len()
        invariant
            0 <= k <= then@.len(),
            texts(out@) == before + act_problems(db.messages@, then@.subrange(0, k as int)),
        decreases then@.len() - k,
    {
        let ghost pre = texts(out@);
        let ghost old_out = out@;
        match &then[k] {
            ActNames::Assign { message, signal } => {
                check(db, message.as_str(), Some(signal.as_str()), &mut out);
                proof {
                    lemma_texts_append(old_out, out@, name_problems(db.messages@, message@, Some(signal@)));
                }
            },
            ActNames::Send { message } => {
                check(db, message.as_str(), None, &mut out);
                proof {
                    lemma_texts_append(old_out, out@, name_problems(db.messages@, message@, None));
                }
            },
            ActNames::Cyclic { message, period_positive } => {
                check(db, message.as_str(), None, &mut out);
                proof {
                    lemma_texts_append(old_out, out@, name_problems(db.messages@, message@, None));
                }
                let ghost mid = out@;
                if !*period_positive {
                    out.push(String::from_str("period must be above zero"));
                    proof {
                        reveal_strlit("period must be above zero");
                        lemma_texts_append(mid, out@, seq!["period must be above zero"@]);
                    }
                } else {
                    proof {
                        assert(texts(mid) + Seq::<Seq<char>>::empty() =~= texts(mid));
                    }
                }
            },
            ActNames::Stop { .. } => {
                proof {
                    assert(pre + Seq::<Seq<char>>::empty() =~= pre);
                }
            },
        }
        proof {
            let sub = then@.subrange(0, k + 1);
            assert(sub.drop_last() =~= then@.subrange(0, k as int));
            assert(sub.last() == then@[k as int]);
            assert(texts(out@) =~= pre + act_problem(db.messages@, then@[k as int]));
        }
        k = k + 1;
    }
    proof {
        assert(then@.subrange(0, then@.len() as int) =~= then@);
    }
    out
}

fn check_conds(db: &Database, cs: &Vec<CondNames>, out: &mut Vec<String>)
    ensures
        texts(final(out)@) == texts(old(out)@) + cond_problems(db.messages@, cs@),
{
    let mut k: usize = 0;
    while k < cs.len()
        invariant
            0 <= k <= cs@.len(),
            texts(out@) == texts(old(out)@) + cond_problems(db.messages@, cs@.subrange(0, k as int)),
        decreases cs@.len() - k,
    {
        let ghost pre = texts(out@);
        let ghost old_out = out@;
        check(db, cs[k].message.as_str(), Some(cs[k].signal.as_str()), out);
        proof {
            lemma_texts_append(old_out, out@, name_problems(db.messages@, cs@[k as int].message@, Some(cs@[k as int].signal@)));
            let sub = cs@.subrange(0, k + 1);
            assert(sub.drop_last() =~= cs@.subrange(0, k as int));
            assert(sub.last() == cs@[k as int]);
            assert(texts(out@) =~= pre + name_problems(db.messages@, cs@[k as int].message@, Some(cs@[k as int].signal@)));
        }
        k = k + 1;
    }
    proof {
        assert(cs@.subrange(0, cs@.len() as int) =~= cs@);
    }
}

/// The warnings of a rule as the panel shows them, each after the rule's
/// name, and the one its row carries: the first.
pub fn label_problems(name: &str, mine: &Vec<String>) -> (r: (Vec<String>, Option<String>))
    ensures
        r.0@.len() == mine@.len(),
        forall|i: int| 0 <= i < mine@.len() ==> (#[trigger] r.0@[i])@ == name@ + ": "@ + mine@[i]@,
        match r.1 {
            Some(w) => mine@.len() > 0 && w@ == mine@[0]@,
            None => mine@.len() == 0,
        },
{
    let mut lines: Vec<String> = Vec::new();
    let mut i: usize = 0;
    while i < mine.len()
        invariant
            0 <= i <= mine@.len(),
            lines@.len() == i,
            forall|j: int| 0 <= j < i ==> (#[trigger] lines@[j])@ == name@ + ": "@ + mine@[j]@,
        decreases mine@.len() - i,
    {
        let mut t: Vec<char> = Vec::new();
        push_str(&mut t, name);
        push_str(&mut t, ": ");
        push_str(&mut t, mine[i].as_str());
        lines.push(string_of(&t));
        i = i + 1;
    }
    let first = if mine.len() > 0 {
        Some(mine[0].clone())
    } else {
        None
    };
    (lines, first)
}


/// No message of that name among the first `n`: none is found.
proof fn lemma_absent_name_is_not_found(msgs: Seq<MessageDef>, name: Seq<char>, n: int)
    requires
        0 <= n <= msgs.len(),
        forall|j: int| 0 <= j < msgs.len() ==> (#[trigger] msgs[j]).name@ != name,
    ensures
        first_named(msgs, name, n) is None,
    decreases n,
{
    if n > 0 {
        lemma_absent_name_is_not_found(msgs, name, n - 1);
        assert(msgs[n - 1].name@ != name);
    }
}

/// The problems with a list of conditions include those with each one.
proof fn lemma_cond_problems_include(msgs: Seq<MessageDef>, cs: Seq<CondNames>, i: int)
    requires
        0 <= i < cs.len(),
    ensures
        cond_problems(msgs, cs).len() >= name_problems(msgs, cs[i].message@, Some(cs[i].signal@)).len(),
    decreases cs.len(),
{
    if i < cs.len() - 1 {
        lemma_cond_problems_include(msgs, cs.drop_last(), i);
        assert(cs.drop_last()[i] == cs[i]);
    }
}

/// A rule that watches a message the loaded DBC does not define is flagged,
/// rather than silently never matching.
pub proof fn law_unknown_messages_are_flagged(
    msgs: Seq<MessageDef>,
    all: Seq<CondNames>,
    any: Seq<CondNames>,
    then: Seq<ActNames>,
    c: CondNames,
)
    requires
        msgs.len() > 0,
        all.contains(c) || any.contains(c),
        forall|j: int| 0 <= j < msgs.len() ==> (#[trigger] msgs[j]).name@ != c.message@,
    ensures
        spec_rule_problems(msgs, all, any, then).len() > 0,
{
    lemma_absent_name_is_not_found(msgs, c.message@, msgs.len() as int);
    assert(name_problems(msgs, c.message@, Some(c.signal@)).len() == 1);
    if all.contains(c) {
        let i = choose|i: int| 0 <= i < all.len() && all[i] == c;
        lemma_cond_problems_include(msgs, all, i);
    } else {
        let i = choose|i: int| 0 <= i < any.len() && any[i] == c;
        lemma_cond_problems_include(msgs, any, i);
    }
}

/// None of the first `n` messages is named `name`: none of them is found.
proof fn lemma_no_name_below(msgs: Seq<MessageDef>, name: Seq<char>, n: int)
    requires
        forall|j: int| 0 <= j < n ==> (#[trigger] msgs[j]).name@ != name,
    ensures
        first_named(msgs, name, n) is None,
    decreases n,
{
    if n > 0 {
        lemma_no_name_below(msgs, name, n - 1);
    }
}

/// The first message named `name` is the one found.
proof fn lemma_first_named_is(msgs: Seq<MessageDef>, name: Seq<char>, i: int, n: int)
    requires
        0 <= i < n,
        msgs[i].name@ == name,
        forall|j: int| 0 <= j < i ==> (#[trigger] msgs[j]).name@ != name,
    ensures
        first_named(msgs, name, n) == Some(i),
    decreases n,
{
    if n - 1 == i {
        lemma_no_name_below(msgs, name, i);
    } else {
        lemma_first_named_is(msgs, name, i, n - 1);
    }
}

/// What one action reports is among what the actions report.
proof fn lemma_act_problems_include(msgs: Seq<MessageDef>, acts: Seq<ActNames>, k: int, x: Seq<char>)
    requires
        0 <= k < acts.len(),
        act_problem(msgs, acts[k]).contains(x),
    ensures
        act_problems(msgs, acts).contains(x),
    decreases acts.len(),
{
    let front = act_problems(msgs, acts.drop_last());
    let own = act_problem(msgs, acts.last());
    if k < acts.len() - 1 {
        assert(acts.drop_last()[k] == acts[k]);
        lemma_act_problems_include(msgs, acts.drop_last(), k, x);
        let j = choose|j: int| 0 <= j < front.len() && front[j] == x;
        assert((front + own)[j] == x);
    } else {
        let j = choose|j: int| 0 <= j < own.len() && own[j] == x;
        assert((front + own)[front.len() + j] == x);
    }
}

/// A set action that writes a signal its message does not carry is flagged,
/// rather than silently writing nothing: with a DBC loaded, when the first
/// message named `message` has no signal named `signal`, the rule's problems
/// include "`message` has no signal named `signal`".
pub proof fn law_unknown_signals_of_set_actions_are_flagged(
    msgs: Seq<MessageDef>,
    all: Seq<CondNames>,
    any: Seq<CondNames>,
    then: Seq<ActNames>,
    message: String,
    signal: String,
    i: int,
)
    requires
        then.contains(ActNames::Assign { message, signal }),
        0 <= i < msgs.len(),
        msgs[i].name@ == message@,
        forall|j: int| 0 <= j < i ==> (#[trigger] msgs[j]).name@ != message@,
        forall|k: int| 0 <= k < msgs[i].signals.len() ==> (#[trigger] msgs[i].signals[k]).name@ != signal@,
    ensures
        spec_rule_problems(msgs, all, any, then).len() > 0,
        spec_rule_problems(msgs, all, any, then).contains(message@ + " has no signal named "@ + signal@),
{
    let x = message@ + " has no signal named "@ + signal@;
    lemma_first_named_is(msgs, message@, i, msgs.len() as int);
    assert(!has_signal(msgs[i], signal@));
    let a = ActNames::Assign { message, signal };
    assert(act_problem(msgs, a) == seq![x]);
    assert(act_problem(msgs, a)[0] == x);
    let k = choose|k: int| 0 <= k < then.len() && then[k] == a;
    lemma_act_problems_include(msgs, then, k, x);
    let acts = act_problems(msgs, then);
    let j = choose|j: int| 0 <= j < acts.len() && acts[j] == x;
    let head = (if then.len() == 0 {
        seq!["has no actions, so it does nothing"@]
    } else {
        Seq::empty()
    }) + (if all.len() == 0 && any.len() == 0 {
        seq!["has no conditions, so it never fires"@]
    } else {
        Seq::empty()
    }) + cond_problems(msgs, all) + cond_problems(msgs, any);
    assert(spec_rule_problems(msgs, all, any, then) == head + acts);
    assert((head + acts)[head.len() + j] == x);
}

} // verus!
