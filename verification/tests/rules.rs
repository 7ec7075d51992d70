use std::collections::BTreeMap;

use tuican::canid;
use tuican::dbc::{Database, MessageDef, Mux, SignalDef};
use tuican::rules::load::{
    candidates, check, enabled_by_default, label_problems, rule_problems, ActNames, CondNames, DEFAULT_NAME,
};
use tuican::rules::{conditions_hold, Cascade, Op, Rule, RuleSet, Source, MAX_PASSES};

/// A condition as the tests write it: `message.signal op value`, read against
/// the latest value of that signal (`None` until the message has arrived).
#[derive(Clone, Debug)]
struct Cond {
    op: Op,
    value: f64,
    seen: Option<f64>,
}

impl Cond {
    fn new(op: Op, value: f64) -> Self {
        Cond { op, value, seen: None }
    }

    /// The verdict on one frame, as the application computes it.
    fn holds(&mut self, current: Option<f64>) -> bool {
        let Some(v) = current else {
            self.seen = None;
            return false;
        };
        let eps = 1e-9;
        let r = match self.op {
            Op::Eq => (v - self.value).abs() <= eps,
            Op::Ne => (v - self.value).abs() > eps,
            Op::Lt => v < self.value,
            Op::Le => v <= self.value,
            Op::Gt => v > self.value,
            Op::Ge => v >= self.value,
            Op::Changed => self.seen.is_some_and(|p| (v - p).abs() > eps),
        };
        self.seen = Some(v);
        r
    }
}

fn rule(name: &str, all: Vec<Cond>) -> Rule<Cond, &'static str> {
    Rule {
        name: name.into(),
        enabled: true,
        all,
        any: Vec::new(),
        then: vec!["send Out"],
        fired: 0,
        last_fired: None,
        warning: None,
        holding: false,
    }
}

fn set(rules: Vec<Rule<Cond, &'static str>>) -> RuleSet<Cond, &'static str> {
    RuleSet { rules, ..Default::default() }
}

/// One pass against the given value of the watched signal.
fn pass(set: &mut RuleSet<Cond, &'static str>, value: Option<f64>, now: u64) -> Vec<usize> {
    let mut holds = Vec::new();
    for r in set.rules.iter_mut() {
        let all: Vec<bool> = r.all.iter_mut().map(|c| c.holds(value)).collect();
        let any: Vec<bool> = r.any.iter_mut().map(|c| c.holds(value)).collect();
        holds.push(conditions_hold(&all, &any));
    }
    set.pass(&holds, now)
}

#[test]
fn a_rule_fires_on_the_edge_not_on_every_frame() {
    let mut s = set(vec![rule("r", vec![Cond::new(Op::Eq, 2.0)])]);

    assert!(pass(&mut s, Some(1.0), 1).is_empty());
    assert_eq!(pass(&mut s, Some(2.0), 2).len(), 1, "should fire when it becomes true");
    assert!(pass(&mut s, Some(2.0), 3).is_empty(), "must not fire again while it stays true");

    // Falling and rising again arms it once more.
    assert!(pass(&mut s, Some(0.0), 4).is_empty());
    assert_eq!(pass(&mut s, Some(2.0), 5).len(), 1);
    assert_eq!(s.rules[0].fired, 2);
    assert_eq!(s.rules[0].last_fired, Some(5));
}

#[test]
fn changed_fires_on_any_transition() {
    let mut s = set(vec![rule("r", vec![Cond::new(Op::Changed, 0.0)])]);
    assert!(pass(&mut s, Some(5.0), 1).is_empty(), "first sighting is not a change");
    assert_eq!(pass(&mut s, Some(6.0), 2).len(), 1);
}

#[test]
fn a_message_never_received_never_fires() {
    let mut s = set(vec![rule("r", vec![Cond::new(Op::Ne, 99.0)])]);
    assert!(pass(&mut s, None, 1).is_empty());
}

#[test]
fn every_matching_rule_fires_from_one_frame() {
    let mut s = set(vec![
        rule("a", vec![Cond::new(Op::Eq, 2.0)]),
        rule("b", vec![Cond::new(Op::Ge, 1.0)]),
        rule("c", vec![Cond::new(Op::Eq, 9.0)]),
    ]);
    let fired = pass(&mut s, Some(2.0), 1);
    assert_eq!(fired.len(), 2, "parallel branches both fire: {fired:?}");
    assert_eq!(fired, vec![0, 1]);
}

#[test]
fn a_disabled_rule_does_not_fire_and_rearms_when_enabled() {
    let mut s = set(vec![rule("r", vec![Cond::new(Op::Eq, 1.0)])]);
    s.rules[0].enabled = false;
    assert!(pass(&mut s, Some(1.0), 1).is_empty());

    s.rules[0].enabled = true;
    assert_eq!(pass(&mut s, Some(1.0), 2).len(), 1);
}

#[test]
fn a_tx_condition_lets_one_rule_follow_another() {
    // The follower watches `tx:Out.enable == 1`: a value we send.
    let mut s = set(vec![rule("follower", vec![Cond::new(Op::Eq, 1.0)])]);
    assert_eq!(Source::default(), Source::Rx);
    let mut enable: Option<f64> = None;
    assert!(pass(&mut s, enable, 1).is_empty());
    enable = Some(1.0);
    assert_eq!(pass(&mut s, enable, 2).len(), 1);
}

#[test]
fn a_rule_needs_all_of_its_all_and_one_of_its_any() {
    assert!(conditions_hold(&[true, true], &[]));
    assert!(!conditions_hold(&[true, false], &[]));
    assert!(conditions_hold(&[true], &[false, true]));
    assert!(!conditions_hold(&[true], &[false, false]));
    assert!(conditions_hold(&[], &[true]));
    assert!(!conditions_hold(&[], &[]), "a rule without conditions never fires");
}

#[test]
fn toggling_a_rule_rearms_it() {
    let mut s = set(vec![rule("r", vec![Cond::new(Op::Eq, 1.0)])]);
    assert_eq!(pass(&mut s, Some(1.0), 1).len(), 1);
    assert!(s.toggle(0));
    assert!(!s.rules[0].enabled);
    assert!(s.toggle(0));
    assert!(s.rules[0].enabled && !s.rules[0].holding);
    assert_eq!(pass(&mut s, Some(1.0), 2).len(), 1);
    assert!(!s.toggle(5));
}

#[test]
fn a_rule_cycle_stops_and_is_reported_once() {
    let mut s: RuleSet<Cond, &'static str> = set(vec![]);
    assert!(s.is_empty());
    for pass in 0..MAX_PASSES - 1 {
        assert_eq!(s.settle(pass, true), Cascade::Again);
    }
    assert_eq!(s.settle(MAX_PASSES - 1, true), Cascade::Looped { report: true });
    assert!(s.looped);
    // Looping again on the next tick is not news.
    assert_eq!(s.settle(MAX_PASSES - 1, true), Cascade::Looped { report: false });
}

/// A rule that sets the transmitted signal `M.a` to `to` when it reads `from`.
fn flip(name: &str, from: f64, to: f64) -> Rule<Cond, f64> {
    Rule {
        name: name.into(),
        enabled: true,
        all: vec![Cond::new(Op::Eq, from)],
        any: Vec::new(),
        then: vec![to],
        fired: 0,
        last_fired: None,
        warning: None,
        holding: false,
    }
}

/// Evaluate rules that watch and set `M.a` the way the screen does: pass
/// after pass, applying what fires, until the library says to stop. Returns
/// whether a loop was reported.
fn run_rules(s: &mut RuleSet<Cond, f64>, a: &mut f64) -> bool {
    for p in 0..MAX_PASSES {
        let value = *a;
        let holds: Vec<bool> = s
            .rules
            .iter_mut()
            .map(|r| {
                let all: Vec<bool> = r.all.iter_mut().map(|c| c.holds(Some(value))).collect();
                r.enabled && conditions_hold(&all, &[])
            })
            .collect();
        let fired = s.pass(&holds, p as u64);
        for &i in &fired {
            for &to in &s.rules[i].then {
                *a = to;
            }
        }
        match s.settle(p, !fired.is_empty()) {
            Cascade::Again => {}
            Cascade::Settled => return false,
            Cascade::Looped { report } => return report,
        }
    }
    false
}

/// Rules can chain, so they can also form a cycle. Evaluation has to stop
/// and say so rather than run until the frame budget is gone.
#[test]
fn a_rule_cycle_stops_instead_of_spinning() {
    let mut s: RuleSet<Cond, f64> = RuleSet { rules: vec![flip("up", 0.0, 1.0), flip("down", 1.0, 0.0)], ..Default::default() };
    let mut a = 0.0;
    let reported = run_rules(&mut s, &mut a);
    assert!(s.looped, "a cycle should be reported");
    assert!(reported, "the user should be told");
    // Bounded, not unbounded: each rule fired once per pass, no more.
    let total: u64 = s.rules.iter().map(|r| r.fired).sum();
    assert!(total <= MAX_PASSES as u64 + 1, "fired {total} times");
}

/// The ordinary case must not be mistaken for a cycle.
#[test]
fn a_settling_chain_does_not_report_a_loop() {
    let mut s: RuleSet<Cond, f64> = RuleSet { rules: vec![flip("once", 0.0, 1.0)], ..Default::default() };
    let mut a = 0.0;
    run_rules(&mut s, &mut a);
    assert!(!s.looped);
    assert_eq!(s.rules[0].fired, 1);
    assert_eq!(a, 1.0);
}

#[test]
fn ops_are_written_as_in_the_file() {
    assert_eq!(Op::Ge.symbol(), ">=");
    assert_eq!(Op::Changed.symbol(), "changed");
    assert_eq!(Op::default(), Op::Eq);
    assert!(enabled_by_default());
}

fn signal(name: &str) -> SignalDef {
    SignalDef {
        name: name.into(),
        start: 0,
        len: 8,
        big_endian: false,
        signed: false,
        unit: String::new(),
        choices: BTreeMap::new(),
        mux: Mux::Plain,
    }
}

fn db() -> Database {
    let msg = MessageDef {
        id: canid::make(0x10, false).unwrap(),
        name: "In".into(),
        len: 1,
        cycle_time_ms: None,
        signals: vec![signal("state")],
    };
    Database::new("board.dbc".into(), vec![msg])
}

#[test]
fn unknown_names_are_reported_against_the_dbc() {
    let db = db();
    let mut out = Vec::new();
    check(&db, "In", Some("state"), &mut out);
    assert!(out.is_empty());
    check(&db, "Nope", Some("state"), &mut out);
    check(&db, "In", Some("speed"), &mut out);
    check(&db, "In", None, &mut out);
    assert_eq!(out, vec!["no message named Nope in this DBC", "In has no signal named speed"]);
    // Without a DBC nothing is checked.
    let mut quiet = Vec::new();
    check(&Database::default(), "Nope", None, &mut quiet);
    assert!(quiet.is_empty());
}

#[test]
fn every_problem_with_a_rule_is_listed_in_order() {
    let db = db();
    let all = vec![CondNames { message: "In".into(), signal: "x".into() }];
    let then = vec![
        ActNames::Send { message: "Out".into() },
        ActNames::Cyclic { message: "In".into(), period_positive: false },
        ActNames::Stop { message: "Gone".into() },
    ];
    let problems = rule_problems(&db, &all, &vec![], &then);
    assert_eq!(
        problems,
        vec!["In has no signal named x", "no message named Out in this DBC", "period must be above zero"]
    );
    let empty = rule_problems(&db, &vec![], &vec![], &vec![]);
    assert_eq!(empty, vec!["has no actions, so it does nothing", "has no conditions, so it never fires"]);
    let (lines, first) = label_problems("r1", &empty);
    assert_eq!(lines, vec!["r1: has no actions, so it does nothing", "r1: has no conditions, so it never fires"]);
    assert_eq!(first.as_deref(), Some("has no actions, so it does nothing"));
}

#[test]
fn rules_are_looked_for_beside_the_dbc_then_here() {
    assert_eq!(candidates(Some("boards/a.dbc")), vec!["boards/tuican.rules.toml".to_string(), DEFAULT_NAME.to_string()]);
    assert_eq!(candidates(Some("a.dbc")), vec!["tuican.rules.toml".to_string(), DEFAULT_NAME.to_string()]);
    assert_eq!(candidates(None), vec![DEFAULT_NAME.to_string()]);
}

#[test]
fn the_panel_names_the_rules_file_alone() {
    let mut set: RuleSet<Cond, ()> = RuleSet::default();
    assert_eq!(set.label(), "(no rules)");
    set.path = Some("boards/front/tuican.rules.toml".to_string());
    assert_eq!(set.label(), "tuican.rules.toml");
}
