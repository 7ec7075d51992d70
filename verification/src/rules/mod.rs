//! Conditional reactions: "change this message to this if this message changes
//! to that".
//!
//! A rule watches signals and, when its condition becomes true, performs
//! actions. Rules are independent, so any number of them can react to the same
//! frame. A rule can also watch a signal we are sending, letting one rule's
//! action satisfy another rule's condition. Together those give a graph of
//! reactions rather than a list, and [`MAX_PASSES`] bounds a cycle in it.
//!
//! Reading a condition compares decoded physical values, which are floating
//! point; the caller does that and hands this module one verdict per
//! condition. What is decided here is everything around the verdicts: how a
//! rule combines them, when it fires (on the rising edge only), what firing
//! records, and when a cascade of passes stops.

pub mod load;

use vstd::prelude::*;

use crate::paths::{file_name, path_file_name};

verus! {

/// How many times a single evaluation may cascade before we stop and say so.
/// A rule that re-arms its own condition would otherwise never return.
pub const MAX_PASSES: usize = 8;

/// Where a condition reads its value from.
#[derive(Clone, Copy, Debug, PartialEq, Eq, Structural)]
pub enum Source {
    /// A signal on a message arriving from the bus.
    Rx,
    /// A signal on a message we are sending, which is how rules chain.
    Tx,
}

impl Default for Source {
    fn default() -> (s: Self)
        ensures
            s == Source::Rx,
    {
        Source::Rx
    }
}

#[derive(Clone, Copy, Debug, PartialEq, Eq, Structural)]
pub enum Op {
    Eq,
    Ne,
    Lt,
    Le,
    Gt,
    Ge,
    /// True on any change of value, whatever it changed to.
    Changed,
}

impl Default for Op {
    fn default() -> (o: Self)
        ensures
            o == Op::Eq,
    {
        Op::Eq
    }
}

/// How a comparison is written in a rule's summary.
pub open spec fn op_symbol(op: Op) -> Seq<char> {
    match op {
        Op::Eq => "=="@,
        Op::Ne => "!="@,
        Op::Lt => "<"@,
        Op::Le => "<="@,
        Op::Gt => ">"@,
        Op::Ge => ">="@,
        Op::Changed => "changed"@,
    }
}

impl Op {
    pub fn symbol(self) -> (s: &'static str)
        ensures
            s@ == op_symbol(self),
    {
        match self {
            Op::Eq => "==",
            Op::Ne => "!=",
            Op::Lt => "<",
            Op::Le => "<=",
            Op::Gt => ">",
            Op::Ge => ">=",
            Op::Changed => "changed",
        }
    }
}

/// A reaction: conditions of type `C`, actions of type `A`, and the state
/// that makes it fire on the rising edge.
#[derive(Clone, Debug)]
pub struct Rule<C, A> {
    pub name: String,
    pub enabled: bool,
    /// Every one of these must hold.
    pub all: Vec<C>,
    /// At least one of these must hold, when the list is not empty.
    pub any: Vec<C>,
    pub then: Vec<A>,
    pub fired: u64,
    /// When it last fired, on the caller's monotonic clock.
    pub last_fired: Option<u64>,
    /// Why this rule cannot work, when the loader found something wrong with
    /// it. Shown in the panel: a rule that silently never fires is the worst
    /// way to spend an hour.
    pub warning: Option<String>,
    /// Whether the condition held last time we looked. Rules fire on the rising
    /// edge; without this a rule watching `state == 2` would fire on every
    /// frame for as long as the state stayed at 2.
    pub holding: bool,
}

/// Whether a rule's condition holds, given the verdict on each of its `all`
/// conditions and each of its `any` conditions: every `all` verdict true, at
/// least one `any` verdict true unless there are none, and at least one
/// condition in all.
pub open spec fn spec_conditions_hold(all: Seq<bool>, any: Seq<bool>) -> bool {
    &&& forall|i: int| 0 <= i < all.len() ==> #[trigger] all[i]
    &&& any.len() == 0 || exists|i: int| 0 <= i < any.len() && #[trigger] any[i]
    &&& !(all.len() == 0 && any.len() == 0)
}

/// Combine the verdicts on a rule's conditions (see [`spec_conditions_hold`]).
/// The caller evaluates every condition, even once the answer is known:
/// `changed` has to see each frame or it would miss transitions.
pub fn conditions_hold(all: &[bool], any: &[bool]) -> (r: bool)
    ensures
        r == spec_conditions_hold(all@, any@),
{
    let mut all_hold = true;
    let mut i: usize = 0;
    while i < all.len()
        invariant
            0 <= i <= all@.len(),
            all_hold == forall|j: int| 0 <= j < i ==> #[trigger] all@[j],
        decreases all@.len() - i,
    {
        if !all[i] {
            all_hold = false;
        }
        i = i + 1;
    }
    let mut any_holds = any.len() == 0;
    let mut k: usize = 0;
    while k < any.len()
        invariant
            0 <= k <= any@.len(),
            any_holds == (any@.len() == 0 || exists|j: int| 0 <= j < k && #[trigger] any@[j]),
        decreases any@.len() - k,
    {
        if any[k] {
            any_holds = true;
        }
        k = k + 1;
    }
    all_hold && any_holds && !(all.len() == 0 && any.len() == 0)
}

/// Whether a rule fires on a pass where its condition is `holds`: it is
/// enabled, the condition holds, and it did not hold last time.
pub open spec fn fires<C, A>(r: Rule<C, A>, holds: bool) -> bool {
    r.enabled && holds && !r.holding
}

/// A rule after a pass at time `now` where its condition is `holds`. A
/// disabled rule only forgets that its condition held; an enabled one records
/// the verdict, and when it fires it counts the firing and its time.
pub open spec fn after_pass<C, A>(r: Rule<C, A>, holds: bool, now: u64) -> Rule<C, A> {
    if !r.enabled {
        Rule { holding: false, ..r }
    } else if fires(r, holds) {
        Rule { fired: (r.fired + 1) as u64, last_fired: Some(now), holding: true, ..r }
    } else {
        Rule { holding: holds, ..r }
    }
}

/// The positions, in order, of the first `n` rules that fire on a pass with
/// the given verdicts.
pub open spec fn firing<C, A>(rules: Seq<Rule<C, A>>, holds: Seq<bool>, n: int) -> Seq<usize>
    decreases n,
{
    if n <= 0 {
        Seq::empty()
    } else if fires(rules[n - 1], holds[n - 1]) {
        firing(rules, holds, n - 1).push((n - 1) as usize)
    } else {
        firing(rules, holds, n - 1)
    }
}

/// Whether every firing count can still go up by one.
pub open spec fn counts_fit<C, A>(rules: Seq<Rule<C, A>>) -> bool {
    forall|i: int| 0 <= i < rules.len() ==> (#[trigger] rules[i]).fired < u64::MAX
}

/// What a cascade of passes does next.
#[derive(Clone, Copy, Debug, PartialEq, Eq, Structural)]
pub enum Cascade {
    /// Nothing fired: the rules have settled.
    Settled,
    /// Something fired and passes remain: apply the actions and pass again.
    Again,
    /// The last allowed pass still fired: stop. `report` says whether this is
    /// news, so a loop is reported once rather than on every frame.
    Looped { report: bool },
}

/// The cascade decision after pass number `pass` (counting from 0), given
/// whether it fired anything and whether a loop was already being reported,
/// as (decision, whether a loop is being reported afterwards).
pub open spec fn spec_settle(pass: int, fired_any: bool, looped: bool) -> (Cascade, bool) {
    if !fired_any {
        (Cascade::Settled, false)
    } else if pass + 1 >= MAX_PASSES {
        (Cascade::Looped { report: !looped }, true)
    } else {
        (Cascade::Again, looped)
    }
}

pub struct RuleSet<C, A> {
    /// The file the rules came from.
    pub path: Option<String>,
    pub rules: Vec<Rule<C, A>>,
    /// Names in the file that the loaded DBC does not define. Shown rather than
    /// silently never matching, which is the failure mode that wastes an hour.
    pub warnings: Vec<String>,
    /// Set when a cascade hit [`MAX_PASSES`], so the UI can say the graph loops.
    pub looped: bool,
}

impl<C, A> Default for RuleSet<C, A> {
    fn default() -> (s: Self)
        ensures
            s.path is None,
            s.rules@.len() == 0,
            s.warnings@.len() == 0,
            !s.looped,
    {
        RuleSet { path: None, rules: Vec::new(), warnings: Vec::new(), looped: false }
    }
}

impl<C, A> RuleSet<C, A> {
    /// What the panel shows: the rules file's name alone, or that none is
    /// loaded.
    pub fn label(&self) -> (s: String)
        ensures
            s@ == match self.path {
                Some(p) => match path_file_name(p@) {
                    Some(n) => n,
                    None => "(no rules)"@,
                },
                None => "(no rules)"@,
            },
    {
        match &self.path {
            Some(p) => match file_name(p.as_str()) {
                Some(n) => n,
                None => String::from_str("(no rules)"),
            },
            None => String::from_str("(no rules)"),
        }
    }

    pub fn is_empty(&self) -> (r: bool)
        ensures
            r == (self.rules@.len() == 0),
    {
        self.rules.len() == 0
    }

    /// One pass: every enabled rule whose condition just became true fires.
    /// `holds[i]` is the verdict on rule `i`'s condition (see
    /// [`conditions_hold`]) and `now` the time on the caller's clock.
    ///
    /// Returns the positions of the rules that fired, in order. Applying their
    /// actions is the caller's job, because the caller owns the transmit values
    /// and the bus channel.
    pub fn pass(&mut self, holds: &[bool], now: u64) -> (fired: Vec<usize>)
        requires
            holds@.len() == old(self).rules@.len(),
            counts_fit(old(self).rules@),
        ensures
            final(self).rules@.len() == old(self).rules@.len(),
            forall|i: int|
                0 <= i < old(self).rules@.len() ==> final(self).rules@[i] == after_pass(
                    #[trigger] old(self).rules@[i],
                    holds@[i],
                    now,
                ),
            fired@ == firing(old(self).rules@, holds@, holds@.len() as int),
            final(self).path == old(self).path,
            final(self).warnings == old(self).warnings,
            final(self).looped == old(self).looped,
    {
        let ghost before = self.rules@;
        let mut fired: Vec<usize> = Vec::new();
        let mut i: usize = 0;
        while i < self.rules.len()
            invariant
                holds@.len() == before.len(),
                self.rules@.len() == before.len(),
                0 <= i <= before.len(),
                counts_fit(before),
                forall|j: int| 0 <= j < i ==> self.rules@[j] == after_pass(#[trigger] before[j], holds@[j], now),
                forall|j: int| i <= j < before.len() ==> #[trigger] self.rules@[j] == before[j],
                fired@ == firing(before, holds@, i as int),
                self.path == old(self).path,
                self.warnings == old(self).warnings,
                self.looped == old(self).looped,
            decreases before.len() - i,
        {
            if !self.rules[i].enabled {
                self.rules[i].holding = false;
            } else {
                let h = holds[i];
                if h && !self.rules[i].holding {
                    assert(before[i as int].fired < u64::MAX);
                    self.rules[i].fired = self.rules[i].fired + 1;
                    self.rules[i].last_fired = Some(now);
                    fired.push(i);
                }
                self.rules[i].holding = h;
            }
            proof {
                assert(self.rules@[i as int] == after_pass(before[i as int], holds@[i as int], now));
            }
            i = i + 1;
        }
        fired
    }

    /// Switch a rule on or off. A rule re-enabled mid-run starts from "its
    /// condition did not hold", so it fires on the next pass where it holds.
    pub fn toggle(&mut self, index: usize) -> (done: bool)
        ensures
            done == (index < old(self).rules@.len()),
            final(self).rules@.len() == old(self).rules@.len(),
            done ==> final(self).rules@ == old(self).rules@.update(
                index as int,
                Rule {
                    enabled: !old(self).rules@[index as int].enabled,
                    holding: false,
                    ..old(self).rules@[index as int]
                },
            ),
            !done ==> final(self).rules@ == old(self).rules@,
            final(self).path == old(self).path,
            final(self).warnings == old(self).warnings,
            final(self).looped == old(self).looped,
    {
        if index >= self.rules.len() {
            return false;
        }
        let on = self.rules[index].enabled;
        self.rules[index].enabled = !on;
        self.rules[index].holding = false;
        true
    }

    /// Decide what a cascade does after pass number `pass` (counting from 0),
    /// which fired something when `fired_any`, and record whether the rules
    /// are looping.
    pub fn settle(&mut self, pass: usize, fired_any: bool) -> (c: Cascade)
        ensures
            (c, final(self).looped) == spec_settle(pass as int, fired_any, old(self).looped),
            final(self).rules == old(self).rules,
            final(self).path == old(self).path,
            final(self).warnings == old(self).warnings,
    {
        if !fired_any {
            self.looped = false;
            Cascade::Settled
        } else if pass >= MAX_PASSES - 1 {
            let report = !self.looped;
            self.looped = true;
            Cascade::Looped { report }
        } else {
            Cascade::Again
        }
    }
}

/// While its condition keeps holding, a rule that has seen it hold does not
/// fire again, however many passes go by.
pub proof fn law_fires_on_the_edge_only<C, A>(r: Rule<C, A>, t1: u64, t2: u64)
    ensures
        !fires(after_pass(r, true, t1), true),
        after_pass(after_pass(r, true, t1), true, t2).fired == after_pass(r, true, t1).fired,
{
}

/// A condition that falls re-arms an enabled rule: the next pass where it
/// holds fires it.
pub proof fn law_falling_rearms<C, A>(r: Rule<C, A>, t: u64)
    requires
        r.enabled,
    ensures
        fires(after_pass(r, false, t), true),
{
}

/// A disabled rule never fires, and after a pass it no longer remembers its
/// condition holding; switched back on, it fires on the next pass where its
/// condition holds.
pub proof fn law_disabled_rules_rest_and_rearm<C, A>(r: Rule<C, A>, holds: bool, t: u64)
    requires
        !r.enabled,
    ensures
        !fires(r, holds),
        after_pass(r, holds, t).fired == r.fired,
        fires(Rule { enabled: true, ..after_pass(r, holds, t) }, true),
{
}

/// Firing counts what it did: a pass raises a rule's count by one exactly when
/// the rule fires, and stamps it with the pass's time; otherwise count and
/// stamp stay.
pub proof fn law_firing_is_counted<C, A>(r: Rule<C, A>, holds: bool, t: u64)
    requires
        r.fired < u64::MAX,
    ensures
        fires(r, holds) ==> after_pass(r, holds, t).fired == r.fired + 1 && after_pass(
            r,
            holds,
            t,
        ).last_fired == Some(t),
        !fires(r, holds) ==> after_pass(r, holds, t).fired == r.fired && after_pass(
            r,
            holds,
            t,
        ).last_fired == r.last_fired,
{
}

/// Every rule whose verdict rises fires from the same pass: the rules do not
/// compete, and a rule is reported exactly when it fires.
pub proof fn law_rules_fire_independently<C, A>(rules: Seq<Rule<C, A>>, holds: Seq<bool>, i: int)
    requires
        holds.len() == rules.len(),
        rules.len() <= usize::MAX,
        0 <= i < rules.len(),
    ensures
        firing(rules, holds, rules.len() as int).contains(i as usize) == fires(rules[i], holds[i]),
    decreases rules.len(),
{
    lemma_firing_members(rules, holds, rules.len() as int, i);
}

proof fn lemma_firing_members<C, A>(rules: Seq<Rule<C, A>>, holds: Seq<bool>, n: int, i: int)
    requires
        0 <= n <= rules.len(),
        rules.len() <= usize::MAX,
        holds.len() == rules.len(),
        0 <= i < rules.len(),
    ensures
        firing(rules, holds, n).contains(i as usize) == (i < n && fires(rules[i], holds[i])),
        forall|k: int| 0 <= k < firing(rules, holds, n).len() ==> #[trigger] firing(rules, holds, n)[k] < n,
    decreases n,
{
    if n > 0 {
        lemma_firing_members(rules, holds, n - 1, i);
        let prev = firing(rules, holds, n - 1);
        if fires(rules[n - 1], holds[n - 1]) {
            let now = prev.push((n - 1) as usize);
            assert(now[now.len() - 1] == (n - 1) as usize);
            if i == n - 1 {
                assert(now.contains(i as usize));
            } else if now.contains(i as usize) {
                let k = choose|k: int| 0 <= k < now.len() && now[k] == i as usize;
                if k < prev.len() {
                    assert(prev[k] == now[k]);
                    assert(prev.contains(i as usize));
                }
            } else if prev.contains(i as usize) {
                let k = choose|k: int| 0 <= k < prev.len() && prev[k] == i as usize;
                assert(now[k] == prev[k]);
            }
            assert forall|k: int| 0 <= k < now.len() implies #[trigger] now[k] < n by {
                if k < prev.len() {
                    assert(now[k] == prev[k]);
                }
            }
        }
    }
}

/// One pass over a rule set, in the terms of the whole set: a rule is listed
/// exactly when it is enabled, its conditions hold and they did not hold
/// before; the list names each rule once, in the rules' order; afterwards
/// each rule remembers whether it is enabled with its conditions holding, its
/// count has gone up by one when it was listed and not otherwise, and its
/// name, switch, conditions, actions and warning are as they were.
pub proof fn law_a_pass_lists_the_rising_rules<C, A>(rules: Seq<Rule<C, A>>, holds: Seq<bool>, now: u64)
    requires
        holds.len() == rules.len(),
        rules.len() <= usize::MAX,
        counts_fit(rules),
    ensures
        forall|i: int|
            #![trigger rules[i]]
            0 <= i < rules.len() ==> (firing(rules, holds, rules.len() as int).contains(i as usize) <==> (
            rules[i].enabled && holds[i] && !rules[i].holding)),
        forall|a: int, b: int|
            0 <= a < b < firing(rules, holds, rules.len() as int).len() ==> #[trigger] firing(
                rules,
                holds,
                rules.len() as int,
            )[a] < #[trigger] firing(rules, holds, rules.len() as int)[b],
        forall|i: int|
            0 <= i < rules.len() ==> {
                let r = #[trigger] rules[i];
                let n = after_pass(r, holds[i], now);
                &&& n.holding == (r.enabled && holds[i])
                &&& n.fired == r.fired + if fires(r, holds[i]) {
                    1int
                } else {
                    0int
                }
                &&& n == (Rule { holding: n.holding, fired: n.fired, last_fired: n.last_fired, ..r })
            },
{
    assert forall|i: int|
        #![trigger rules[i]]
        0 <= i < rules.len() implies (firing(rules, holds, rules.len() as int).contains(i as usize) <==> (
    rules[i].enabled && holds[i] && !rules[i].holding)) by {
        lemma_firing_members(rules, holds, rules.len() as int, i);
    }
    lemma_firing_increasing(rules, holds, rules.len() as int);
}

proof fn lemma_firing_increasing<C, A>(rules: Seq<Rule<C, A>>, holds: Seq<bool>, n: int)
    requires
        0 <= n <= rules.len(),
        rules.len() <= usize::MAX,
        holds.len() == rules.len(),
    ensures
        forall|k: int| 0 <= k < firing(rules, holds, n).len() ==> #[trigger] firing(rules, holds, n)[k] < n,
        forall|a: int, b: int|
            0 <= a < b < firing(rules, holds, n).len() ==> #[trigger] firing(rules, holds, n)[a]
                < #[trigger] firing(rules, holds, n)[b],
    decreases n,
{
    if n > 0 {
        lemma_firing_increasing(rules, holds, n - 1);
        let prev = firing(rules, holds, n - 1);
        if fires(rules[n - 1], holds[n - 1]) {
            let now = prev.push((n - 1) as usize);
            assert forall|k: int| 0 <= k < now.len() implies #[trigger] now[k] < n by {
                if k < prev.len() {
                    assert(now[k] == prev[k]);
                }
            }
            assert forall|a: int, b: int| 0 <= a < b < now.len() implies #[trigger] now[a] < #[trigger] now[b] by {
                assert(now[a] == prev[a]);
                if b < prev.len() {
                    assert(now[b] == prev[b]);
                }
            }
        }
    }
}

/// A cascade stops: after the last allowed pass it never asks for another,
/// and once the rules settle the loop is no longer reported.
pub proof fn law_cascades_stop(pass: int, fired_any: bool, looped: bool)
    ensures
        pass + 1 >= MAX_PASSES ==> spec_settle(pass, fired_any, looped).0 != Cascade::Again,
        !fired_any ==> spec_settle(pass, fired_any, looped) == (Cascade::Settled, false),
{
}

/// A loop is reported once: the pass that first hits the limit reports it, and
/// the next cascade that loops again does not, until the rules have settled.
pub proof fn law_a_loop_is_reported_once(pass: int)
    requires
        pass + 1 >= MAX_PASSES,
    ensures
        spec_settle(pass, true, false) == (Cascade::Looped { report: true }, true),
        spec_settle(pass, true, true) == (Cascade::Looped { report: false }, true),
{
}

} // verus!
