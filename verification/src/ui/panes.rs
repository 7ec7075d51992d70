//! What the panes say: the help table sized to its content, and the rows of
//! the receive, cyclic and rules panes as text, columns aligned.

use vstd::prelude::*;

use crate::canid::{display, spec_display, Id};
use crate::rules::Rule;
use crate::text::{chars_of, decimal, pad_left, pad_right, push_decimal, push_left, push_right, push_str, string_of};
use crate::ui::layout::{clip, elide, spec_clip, spec_elide};

verus! {

/// The key table the help box shows, as (keys, what they do).
pub open spec fn help_keys() -> Seq<(Seq<char>, Seq<char>)> {
    seq![
        ("tab / shift-tab, h l"@, "move between panes"@),
        ("j k, ↑ ↓"@, "move within a pane"@),
        ("5j, 12k"@, "repeat a motion"@),
        ("gg / G / 42G"@, "top, bottom, that row"@),
        ("ctrl-d / ctrl-u"@, "half page down / up"@),
        ("ctrl-f / ctrl-b"@, "page down / up"@),
        ("H / M / L"@, "top, middle, bottom of the screen"@),
        ("/"@, "filter messages (starts empty each time)"@),
        ("enter"@, "edit signal, or act on the panel row"@),
        ("s"@, "send the selected message once"@),
        ("p"@, "start or stop sending it periodically"@),
        ("d"@, "stop the periodic send under the cursor"@),
        ("x"@, "stop every periodic send"@),
        ("r"@, "raw send, e.g.  4E5 11 22 33"@),
        ("c"@, "clear the receive table"@),
        ("F2"@, "mouse on/off (off restores text selection)"@),
        ("F3 / F4"@, "change DBC / change interface"@),
        ("F5 / F6"@, "cyclic panel / rules panel"@),
        ("F7"@, "reload the rules file"@),
        ("q"@, "quit"@),
    ]
}

/// The key table the help box shows, as (keys, what they do).
pub fn keys() -> (k: Vec<(&'static str, &'static str)>)
    ensures
        k@.len() == help_keys().len(),
        forall|i: int| 0 <= i < k@.len() ==> (#[trigger] k@[i]).0@ == help_keys()[i].0 && k@[i].1@ == help_keys()[i].1,
{
    let mut k: Vec<(&'static str, &'static str)> = Vec::new();
    k.push(("tab / shift-tab, h l", "move between panes"));
    k.push(("j k, ↑ ↓", "move within a pane"));
    k.push(("5j, 12k", "repeat a motion"));
    k.push(("gg / G / 42G", "top, bottom, that row"));
    k.push(("ctrl-d / ctrl-u", "half page down / up"));
    k.push(("ctrl-f / ctrl-b", "page down / up"));
    k.push(("H / M / L", "top, middle, bottom of the screen"));
    k.push(("/", "filter messages (starts empty each time)"));
    k.push(("enter", "edit signal, or act on the panel row"));
    k.push(("s", "send the selected message once"));
    k.push(("p", "start or stop sending it periodically"));
    k.push(("d", "stop the periodic send under the cursor"));
    k.push(("x", "stop every periodic send"));
    k.push(("r", "raw send, e.g.  4E5 11 22 33"));
    k.push(("c", "clear the receive table"));
    k.push(("F2", "mouse on/off (off restores text selection)"));
    k.push(("F3 / F4", "change DBC / change interface"));
    k.push(("F5 / F6", "cyclic panel / rules panel"));
    k.push(("F7", "reload the rules file"));
    k.push(("q", "quit"));
    proof {
        reveal_strlit("tab / shift-tab, h l");
        reveal_strlit("move between panes");
        reveal_strlit("j k, ↑ ↓");
        reveal_strlit("move within a pane");
        reveal_strlit("5j, 12k");
        reveal_strlit("repeat a motion");
        reveal_strlit("gg / G / 42G");
        reveal_strlit("top, bottom, that row");
        reveal_strlit("ctrl-d / ctrl-u");
        reveal_strlit("half page down / up");
        reveal_strlit("ctrl-f / ctrl-b");
        reveal_strlit("page down / up");
        reveal_strlit("H / M / L");
        reveal_strlit("top, middle, bottom of the screen");
        reveal_strlit("/");
        reveal_strlit("filter messages (starts empty each time)");
        reveal_strlit("enter");
        reveal_strlit("edit signal, or act on the panel row");
        reveal_strlit("s");
        reveal_strlit("send the selected message once");
        reveal_strlit("p");
        reveal_strlit("start or stop sending it periodically");
        reveal_strlit("d");
        reveal_strlit("stop the periodic send under the cursor");
        reveal_strlit("x");
        reveal_strlit("stop every periodic send");
        reveal_strlit("r");
        reveal_strlit("raw send, e.g.  4E5 11 22 33");
        reveal_strlit("c");
        reveal_strlit("clear the receive table");
        reveal_strlit("F2");
        reveal_strlit("mouse on/off (off restores text selection)");
        reveal_strlit("F3 / F4");
        reveal_strlit("change DBC / change interface");
        reveal_strlit("F5 / F6");
        reveal_strlit("cyclic panel / rules panel");
        reveal_strlit("F7");
        reveal_strlit("reload the rules file");
        reveal_strlit("q");
        reveal_strlit("quit");
    }
    assert(k@.len() == help_keys().len());
    k
}

/// The widest first (`keys`) or second (`what`) column among the first `n`
/// entries.
pub open spec fn widest(t: Seq<(Seq<char>, Seq<char>)>, n: int, second: bool) -> nat
    decreases n,
{
    if n <= 0 {
        0
    } else {
        let w = if second {
            t[n - 1].1.len()
        } else {
            t[n - 1].0.len()
        };
        let rest = widest(t, n - 1, second);
        if w > rest {
            w
        } else {
            rest
        }
    }
}

/// The widest entry of a column of the key table, in characters.
fn widest_column(k: &Vec<(&'static str, &'static str)>, second: bool) -> (w: usize)
    requires
        k@.len() == help_keys().len(),
        forall|i: int| 0 <= i < k@.len() ==> (#[trigger] k@[i]).0@ == help_keys()[i].0 && k@[i].1@ == help_keys()[i].1,
    ensures
        w == widest(help_keys(), help_keys().len() as int, second),
{
    let mut w: usize = 0;
    let mut i: usize = 0;
    while i < k.len()
        invariant
            0 <= i <= k@.len(),
            k@.len() == help_keys().len(),
            forall|j: int| 0 <= j < k@.len() ==> (#[trigger] k@[j]).0@ == help_keys()[j].0 && k@[j].1@ == help_keys()[j].1,
            w == widest(help_keys(), i as int, second),
        decreases k@.len() - i,
    {
        let text = if second {
            k[i].1
        } else {
            k[i].0
        };
        let n = chars_of(text).len();
        if n > w {
            w = n;
        }
        i = i + 1;
    }
    w
}

/// Width of the key column: the widest key plus a gap, so a long binding
/// cannot run into its own description.
pub fn key_column() -> (w: usize)
    ensures
        w == widest(help_keys(), help_keys().len() as int, false) + 2,
        w == 22,
{
    let k = keys();
    let w = widest_column(&k, false);
    proof {
        reveal_strlit("tab / shift-tab, h l");
        reveal_strlit("j k, ↑ ↓");
        reveal_strlit("5j, 12k");
        reveal_strlit("gg / G / 42G");
        reveal_strlit("ctrl-d / ctrl-u");
        reveal_strlit("ctrl-f / ctrl-b");
        reveal_strlit("H / M / L");
        reveal_strlit("/");
        reveal_strlit("enter");
        reveal_strlit("s");
        reveal_strlit("p");
        reveal_strlit("d");
        reveal_strlit("x");
        reveal_strlit("r");
        reveal_strlit("c");
        reveal_strlit("F2");
        reveal_strlit("F3 / F4");
        reveal_strlit("F5 / F6");
        reveal_strlit("F7");
        reveal_strlit("q");
        reveal_with_fuel(widest, 21);
        assert(widest(help_keys(), 20, false) == 20);
    }
    w + 2
}

/// The widest description in the key table.
fn widest_description() -> (w: usize)
    ensures
        w == widest(help_keys(), help_keys().len() as int, true),
        w == 42,
{
    let k = keys();
    let w = widest_column(&k, true);
    proof {
        reveal_strlit("move between panes");
        reveal_strlit("move within a pane");
        reveal_strlit("repeat a motion");
        reveal_strlit("top, bottom, that row");
        reveal_strlit("half page down / up");
        reveal_strlit("page down / up");
        reveal_strlit("top, middle, bottom of the screen");
        reveal_strlit("filter messages (starts empty each time)");
        reveal_strlit("edit signal, or act on the panel row");
        reveal_strlit("send the selected message once");
        reveal_strlit("start or stop sending it periodically");
        reveal_strlit("stop the periodic send under the cursor");
        reveal_strlit("stop every periodic send");
        reveal_strlit("raw send, e.g.  4E5 11 22 33");
        reveal_strlit("clear the receive table");
        reveal_strlit("mouse on/off (off restores text selection)");
        reveal_strlit("change DBC / change interface");
        reveal_strlit("cyclic panel / rules panel");
        reveal_strlit("reload the rules file");
        reveal_strlit("quit");
        reveal_with_fuel(widest, 21);
        assert(widest(help_keys(), 20, true) == 42);
    }
    w
}

/// Sized from the content, so the box has no dead rows and clips nothing:
/// the key column, the widest description and the borders across; a row per
/// key and the borders down.
pub fn help_size() -> (r: (u16, u16))
    ensures
        r.0 == widest(help_keys(), help_keys().len() as int, false) + 2 + widest(
            help_keys(),
            help_keys().len() as int,
            true,
        ) + 4,
        r.1 == help_keys().len() + 2,
        r == (68u16, 22u16),
{
    let widest = widest_description();
    let kc = key_column();
    let n = keys().len();
    ((kc + widest + 4) as u16, n as u16 + 2)
}

/// How a row is drawn.
#[derive(Clone, Copy, Debug, PartialEq, Eq, Structural)]
pub enum Look {
    Selected,
    Normal,
    Dim,
    Accent,
    Error,
}

/// The receive pane's column header; the period and data columns only when
/// the pane is wide enough for them.
pub open spec fn spec_rx_header(show_period: bool, show_hex: bool) -> Seq<char> {
    "  "@ + pad_left("id"@, 10) + " "@ + pad_right("name"@, 24) + " "@ + pad_left("count"@, 8) + (if show_period {
        " "@ + pad_left("ms"@, 7)
    } else {
        Seq::empty()
    }) + (if show_hex {
        "  "@ + pad_right("data"@, 23)
    } else {
        Seq::empty()
    }) + "  decoded"@
}

/// Which optional columns the receive pane shows at `width` cells, as
/// (period, hex payload): columns are shed rather than the row cut short,
/// the period below 100 cells and the hex payload below 80, so the decoded
/// text, which is the point of the pane, is the last thing to lose room.
pub fn rx_columns(width: usize) -> (r: (bool, bool))
    ensures
        r == (width >= 100, width >= 80),
{
    (width >= 100, width >= 80)
}

pub fn rx_header(show_period: bool, show_hex: bool) -> (s: String)
    ensures
        s@ == spec_rx_header(show_period, show_hex),
{
    let mut t: Vec<char> = Vec::new();
    push_str(&mut t, "  ");
    push_right(&mut t, "id", 10);
    push_str(&mut t, " ");
    push_left(&mut t, "name", 24);
    push_str(&mut t, " ");
    push_right(&mut t, "count", 8);
    if show_period {
        push_str(&mut t, " ");
        push_right(&mut t, "ms", 7);
    }
    if show_hex {
        push_str(&mut t, "  ");
        push_left(&mut t, "data", 23);
    }
    push_str(&mut t, "  decoded");
    assert(t@ =~= spec_rx_header(show_period, show_hex));
    string_of(&t)
}

/// A receive row: the identifier, the name cut in the middle to fit, the
/// frame count, then (when shown) the period and the data cut to fit, and the
/// decoded values.
pub open spec fn spec_rx_row(
    id: Id,
    name: Seq<char>,
    count: u64,
    period: Option<Seq<char>>,
    hex: Option<Seq<char>>,
    decoded: Seq<char>,
) -> Seq<char> {
    "  "@ + pad_left(spec_display(id), 10) + " "@ + pad_right(spec_elide(name, 24), 24) + " "@ + pad_left(
        decimal(count as nat),
        8,
    ) + (match period {
        Some(p) => " "@ + pad_left(p, 7),
        None => Seq::empty(),
    }) + (match hex {
        Some(h) => "  "@ + pad_right(spec_elide(h, 23), 23),
        None => Seq::empty(),
    }) + "  "@ + decoded
}

fn push_decimal_field(out: &mut Vec<char>, n: u64, width: usize, right: bool)
    ensures
        final(out)@ == old(out)@ + if right {
            pad_left(decimal(n as nat), width as nat)
        } else {
            pad_right(decimal(n as nat), width as nat)
        },
{
    let mut d: Vec<char> = Vec::new();
    push_decimal(&mut d, n);
    assert(d@ =~= decimal(n as nat));
    let text = string_of(&d);
    if right {
        push_right(out, text.as_str(), width);
    } else {
        push_left(out, text.as_str(), width);
    }
}

/// A receive row (see [`spec_rx_row`]); `period` is already formatted.
pub fn rx_row(id: Id, name: &str, count: u64, period: Option<&str>, hex: Option<&str>, decoded: &str) -> (s: String)
    ensures
        s@ == spec_rx_row(id, name@, count, match period {
            Some(p) => Some(p@),
            None => None,
        }, match hex {
            Some(h) => Some(h@),
            None => None,
        }, decoded@),
{
    let mut t: Vec<char> = Vec::new();
    push_str(&mut t, "  ");
    push_right(&mut t, display(id).as_str(), 10);
    push_str(&mut t, " ");
    push_left(&mut t, elide(name, 24).as_str(), 24);
    push_str(&mut t, " ");
    push_decimal_field(&mut t, count, 8, true);
    if let Some(p) = period {
        push_str(&mut t, " ");
        push_right(&mut t, p, 7);
    }
    if let Some(h) = hex {
        push_str(&mut t, "  ");
        push_left(&mut t, elide(h, 23).as_str(), 23);
    }
    push_str(&mut t, "  ");
    push_str(&mut t, decoded);
    assert(t@ =~= spec_rx_row(id, name@, count, match period {
        Some(p) => Some(p@),
        None => None,
    }, match hex {
        Some(h) => Some(h@),
        None => None,
    }, decoded@));
    string_of(&t)
}

/// How a receive row is drawn: the cursor's row highlighted, a node that has
/// stopped talking dimmed, one the DBC does not know accented.
pub fn rx_look(selected: bool, stale: bool, known: bool) -> (l: Look)
    ensures
        l == if selected {
            Look::Selected
        } else if stale {
            Look::Dim
        } else if known {
            Look::Normal
        } else {
            Look::Accent
        },
{
    if selected {
        Look::Selected
    } else if stale {
        Look::Dim
    } else if known {
        Look::Normal
    } else {
        Look::Accent
    }
}

/// The rules panel's word for a rule's state.
pub open spec fn spec_state_word<C, A>(r: Rule<C, A>) -> Seq<char> {
    if r.warning is Some {
        "bad"@
    } else if !r.enabled {
        "off"@
    } else if r.holding {
        "held"@
    } else {
        "armed"@
    }
}

/// A rules-panel row: whether it is on, its name cut to fit, its state, how
/// often it fired, and its warning or else its summary.
pub open spec fn spec_rule_row<C, A>(r: Rule<C, A>, summary: Seq<char>) -> Seq<char> {
    "  "@ + pad_right(if r.enabled {
        "[x]"@
    } else {
        "[ ]"@
    }, 3) + " "@ + pad_right(spec_elide(r.name@, 26), 26) + " "@ + pad_left(spec_state_word(r), 7) + " "@
        + pad_left(decimal(r.fired as nat), 6) + "  "@ + match r.warning {
        Some(w) => w@,
        None => summary,
    }
}

/// A rules-panel row (see [`spec_rule_row`]); `summary` is the rule's
/// conditions and actions in words.
pub fn rule_row<C, A>(r: &Rule<C, A>, summary: &str) -> (s: String)
    ensures
        s@ == spec_rule_row(*r, summary@),
{
    let mut t: Vec<char> = Vec::new();
    push_str(&mut t, "  ");
    push_left(&mut t, if r.enabled {
        "[x]"
    } else {
        "[ ]"
    }, 3);
    push_str(&mut t, " ");
    push_left(&mut t, elide(r.name.as_str(), 26).as_str(), 26);
    push_str(&mut t, " ");
    let word = if r.warning.is_some() {
        "bad"
    } else if !r.enabled {
        "off"
    } else if r.holding {
        "held"
    } else {
        "armed"
    };
    push_right(&mut t, word, 7);
    push_str(&mut t, " ");
    push_decimal_field(&mut t, r.fired, 6, true);
    push_str(&mut t, "  ");
    match &r.warning {
        Some(w) => push_str(&mut t, w.as_str()),
        None => push_str(&mut t, summary),
    }
    assert(t@ =~= spec_rule_row(*r, summary@));
    string_of(&t)
}

/// How a rules-panel row is drawn: the cursor's highlighted, a broken rule as
/// an error, a disabled one dimmed, one waiting for its condition to fall
/// accented.
pub fn rule_look<C, A>(r: &Rule<C, A>, selected: bool) -> (l: Look)
    ensures
        l == if selected {
            Look::Selected
        } else if r.warning is Some {
            Look::Error
        } else if !r.enabled {
            Look::Dim
        } else if r.holding {
            Look::Accent
        } else {
            Look::Normal
        },
{
    if selected {
        Look::Selected
    } else if r.warning.is_some() {
        Look::Error
    } else if !r.enabled {
        Look::Dim
    } else if r.holding {
        Look::Accent
    } else {
        Look::Normal
    }
}

/// How many of the rules carry a warning.
pub open spec fn bad_count<C, A>(rules: Seq<Rule<C, A>>, n: int) -> nat
    decreases n,
{
    if n <= 0 {
        0
    } else {
        bad_count(rules, n - 1) + if rules[n - 1].warning is Some {
            1nat
        } else {
            0nat
        }
    }
}

/// The rules panel's title: the file's name, and how many rules need
/// attention when any do.
pub open spec fn spec_rules_title<C, A>(label: Seq<char>, rules: Seq<Rule<C, A>>) -> Seq<char> {
    let bad = bad_count(rules, rules.len() as int);
    if bad > 0 {
        "rules  "@ + label + "  ("@ + decimal(bad) + " need"@ + (if bad == 1 {
            "s"@
        } else {
            Seq::empty()
        }) + " attention)"@
    } else {
        "rules  "@ + label
    }
}

pub fn rules_title<C, A>(label: &str, rules: &Vec<Rule<C, A>>) -> (s: String)
    ensures
        s@ == spec_rules_title(label@, rules@),
{
    let mut bad: u64 = 0;
    let mut i: usize = 0;
    while i < rules.len()
        invariant
            0 <= i <= rules@.len(),
            bad == bad_count(rules@, i as int),
            bad <= i,
        decreases rules@.len() - i,
    {
        if rules[i].warning.is_some() {
            bad = bad + 1;
        }
        i = i + 1;
    }
    let mut t: Vec<char> = Vec::new();
    push_str(&mut t, "rules  ");
    push_str(&mut t, label);
    if bad > 0 {
        push_str(&mut t, "  (");
        push_decimal(&mut t, bad);
        push_str(&mut t, " need");
        if bad == 1 {
            push_str(&mut t, "s");
        }
        push_str(&mut t, " attention)");
    }
    assert(t@ =~= spec_rules_title(label@, rules@));
    string_of(&t)
}

/// The one-line strip of periodic sends: each name with its count, or none.
pub open spec fn strip_items(counts: Seq<(String, u64)>, n: int) -> Seq<char>
    decreases n,
{
    if n <= 0 {
        Seq::empty()
    } else {
        strip_items(counts, n - 1) + (if n > 1 {
            ", "@
        } else {
            Seq::empty()
        }) + counts[n - 1].0@ + "("@ + decimal(counts[n - 1].1 as nat) + ")"@
    }
}

pub open spec fn spec_cyclic_strip(counts: Seq<(String, u64)>) -> Seq<char> {
    if counts.len() == 0 {
        " cyclic: none"@
    } else {
        " cyclic: "@ + strip_items(counts, counts.len() as int)
    }
}

pub fn cyclic_strip(counts: &Vec<(String, u64)>) -> (s: String)
    ensures
        s@ == spec_cyclic_strip(counts@),
{
    let mut t: Vec<char> = Vec::new();
    if counts.len() == 0 {
        push_str(&mut t, " cyclic: none");
        assert(t@ =~= spec_cyclic_strip(counts@));
        return string_of(&t);
    }
    push_str(&mut t, " cyclic: ");
    let ghost start = t@;
    let mut i: usize = 0;
    while i < counts.len()
        invariant
            0 <= i <= counts@.len(),
            t@ == start + strip_items(counts@, i as int),
        decreases counts@.len() - i,
    {
        if i > 0 {
            push_str(&mut t, ", ");
        }
        push_str(&mut t, counts[i].0.as_str());
        push_str(&mut t, "(");
        push_decimal(&mut t, counts[i].1);
        push_str(&mut t, ")");
        assert(t@ =~= start + strip_items(counts@, i + 1));
        i = i + 1;
    }
    assert(t@ =~= spec_cyclic_strip(counts@));
    string_of(&t)
}

/// A cyclic-panel row: the message cut to fit, its identifier, its period
/// (already formatted), how many have gone, and the bytes going out.
pub open spec fn spec_cyclic_row(name: Seq<char>, id: Id, period: Seq<char>, sent: u64, hex: Seq<char>) -> Seq<char> {
    "  "@ + pad_right(spec_elide(name, 28), 28) + " "@ + pad_left(spec_display(id), 10) + " "@ + pad_left(period, 7)
        + "ms "@ + pad_left(decimal(sent as nat), 8) + "  "@ + hex
}

pub fn cyclic_row(name: &str, id: Id, period: &str, sent: u64, hex: &str) -> (s: String)
    ensures
        s@ == spec_cyclic_row(name@, id, period@, sent, hex@),
{
    let mut t: Vec<char> = Vec::new();
    push_str(&mut t, "  ");
    push_left(&mut t, elide(name, 28).as_str(), 28);
    push_str(&mut t, " ");
    push_right(&mut t, display(id).as_str(), 10);
    push_str(&mut t, " ");
    push_right(&mut t, period, 7);
    push_str(&mut t, "ms ");
    push_decimal_field(&mut t, sent, 8, true);
    push_str(&mut t, "  ");
    push_str(&mut t, hex);
    assert(t@ =~= spec_cyclic_row(name@, id, period@, sent, hex@));
    string_of(&t)
}


/// The header line from the link's words and the fields after it, most
/// important first: each field joins, after a bar, only while the line with
/// it and its separators still fits, and the first that does not fit ends the
/// line, so a narrow terminal drops fields off the end rather than clipping
/// one mid-word.
pub open spec fn header_from(text: Seq<char>, fields: Seq<Seq<char>>, width: nat) -> Seq<char>
    decreases fields.len(),
{
    if fields.len() == 0 {
        text
    } else if text.len() + fields[0].len() + 3 > width {
        text
    } else {
        header_from(text + "│ "@ + fields[0] + " "@, fields.drop_first(), width)
    }
}

pub open spec fn texts_of(v: Seq<String>) -> Seq<Seq<char>> {
    v.map_values(|s: String| s@)
}

/// The header line (see [`header_from`]), padded to the full width.
pub fn header_text(link: &str, fields: &Vec<String>, width: usize) -> (s: String)
    ensures
        s@ == pad_right(header_from(link@, texts_of(fields@), width as nat), width as nat),
{
    let mut t: Vec<char> = chars_of(link);
    let ghost all = texts_of(fields@);
    let mut i: usize = 0;
    assert(all.subrange(0, all.len() as int) =~= all);
    while i < fields.len()
        invariant
            0 <= i <= fields@.len(),
            all == texts_of(fields@),
            header_from(t@, all.subrange(i as int, all.len() as int), width as nat) == header_from(link@, all, width as nat),
        ensures
            header_from(t@, all.subrange(i as int, all.len() as int), width as nat) == t@,
            header_from(t@, all.subrange(i as int, all.len() as int), width as nat) == header_from(link@, all, width as nat),
        decreases fields@.len() - i,
    {
        proof {
            let rest = all.subrange(i as int, all.len() as int);
            assert(rest[0] == fields@[i as int]@);
            assert(rest.drop_first() =~= all.subrange(i + 1, all.len() as int));
        }
        let n = chars_of(fields[i].as_str()).len();
        if t.len() as u128 + n as u128 + 3 > width as u128 {
            break;
        }
        push_str(&mut t, "│ ");
        push_str(&mut t, fields[i].as_str());
        push_str(&mut t, " ");
        i = i + 1;
    }
    let line = string_of(&t);
    let mut out: Vec<char> = Vec::new();
    push_left(&mut out, line.as_str(), width);
    assert(out@ =~= pad_right(header_from(link@, all, width as nat), width as nat));
    string_of(&out)
}

/// `a - b`, or 0 when `b` is larger.
pub open spec fn sat_sub(a: int, b: int) -> nat {
    if a >= b {
        (a - b) as nat
    } else {
        0
    }
}

/// A message row: `~` when it is being sent periodically, its identifier,
/// and its name cut in the middle to what is left of `width` (at least four
/// characters).
pub open spec fn spec_message_row(live: bool, id: Id, name: Seq<char>, width: nat) -> Seq<char> {
    let room = sat_sub(width as int, spec_display(id).len() + 3int);
    (if live { "~"@ } else { " "@ }) + spec_display(id) + " "@ + spec_elide(name, if room >= 4 { room } else { 4 })
}

pub fn message_row(live: bool, id: Id, name: &str, width: usize) -> (s: String)
    ensures
        s@ == spec_message_row(live, id, name@, width as nat),
{
    let shown = display(id);
    let n = chars_of(shown.as_str()).len();
    let room: usize = if n < usize::MAX - 3 && width >= n + 3 {
        width - (n + 3)
    } else {
        0
    };
    let mut t: Vec<char> = Vec::new();
    push_str(&mut t, if live { "~" } else { " " });
    push_str(&mut t, shown.as_str());
    push_str(&mut t, " ");
    push_str(&mut t, elide(name, if room >= 4 { room } else { 4 }).as_str());
    assert(t@ =~= spec_message_row(live, id, name@, width as nat));
    string_of(&t)
}

/// The width of a signal's name column: half the pane, between 8 and 24.
pub open spec fn name_column(width: nat) -> nat {
    if width / 2 < 8 {
        8
    } else if width / 2 > 24 {
        24
    } else {
        width / 2
    }
}

/// A signal row: the name cut to its column, the value as shown, and why it
/// is greyed when the current multiplexor leaves it out, all clipped to the
/// pane.
pub open spec fn spec_signal_row(name: Seq<char>, shown: Seq<char>, included: bool, width: nat) -> Seq<char> {
    let w = name_column(width);
    spec_clip(
        pad_right(spec_elide(name, w), w) + " "@ + shown + (if included { Seq::empty() } else { "   (not in this mux)"@ }),
        width,
    )
}

pub fn signal_row(name: &str, shown: &str, included: bool, width: usize) -> (s: String)
    ensures
        s@ == spec_signal_row(name@, shown@, included, width as nat),
{
    let half = width / 2;
    let w: usize = if half < 8 {
        8
    } else if half > 24 {
        24
    } else {
        half
    };
    let mut t: Vec<char> = Vec::new();
    push_left(&mut t, elide(name, w).as_str(), w);
    push_str(&mut t, " ");
    push_str(&mut t, shown);
    if !included {
        push_str(&mut t, "   (not in this mux)");
    }
    let line = string_of(&t);
    let r = clip(line.as_str(), width);
    assert(t@ =~= pad_right(spec_elide(name@, w as nat), w as nat) + " "@ + shown@ + (if included {
        Seq::empty()
    } else {
        "   (not in this mux)"@
    }));
    r
}

/// A picker row: the label in the left half, cut to fit, then the detail cut
/// to what is left.
pub open spec fn spec_picker_row(label: Seq<char>, detail: Seq<char>, width: nat) -> Seq<char> {
    let half = width / 2;
    " "@ + pad_right(spec_elide(label, half), half) + "  "@ + spec_elide(detail, sat_sub(width as int, half + 3int))
}

pub fn picker_row(label: &str, detail: &str, width: usize) -> (s: String)
    ensures
        s@ == spec_picker_row(label@, detail@, width as nat),
{
    let half = width / 2;
    let room: usize = if width >= half + 3 {
        width - (half + 3)
    } else {
        0
    };
    let mut t: Vec<char> = Vec::new();
    push_str(&mut t, " ");
    push_left(&mut t, elide(label, half).as_str(), half);
    push_str(&mut t, "  ");
    push_str(&mut t, elide(detail, room).as_str());
    assert(t@ =~= spec_picker_row(label@, detail@, width as nat));
    string_of(&t)
}

/// The key hints, in full or in short, ending with whether the mouse is on.
pub open spec fn hint_line(mouse: bool, full: bool) -> Seq<char> {
    let m = if mouse { "mouse:on"@ } else { "mouse:off"@ };
    if full {
        " tab pane · / filter · ⏎ edit · s send · p cyclic · x stop · r raw · c clear · F3 dbc · F4 iface · F5 cyclic · F6 rules · F2 "@
            + m + " · ? help · q quit "@
    } else {
        " tab · / · ⏎ · s · p · x · r · c · F3 · F4 · F5 · F6 · ? · q  ["@ + m + "] "@
    }
}

/// The size of the full hint line in UTF-8 bytes, which is what decides
/// whether it fits: 168 with the mouse on, 169 with it off.
pub open spec fn full_hint_bytes(mouse: bool) -> nat {
    if mouse {
        168
    } else {
        169
    }
}

/// The hint bar: the full line when the bar is at least as wide as the line
/// is long in bytes, else the short one, padded to the width.
pub fn hints_text(mouse: bool, width: usize) -> (s: String)
    ensures
        s@ == pad_right(hint_line(mouse, width >= full_hint_bytes(mouse)), width as nat),
{
    let bytes: usize = if mouse { 168 } else { 169 };
    let m = if mouse { "mouse:on" } else { "mouse:off" };
    let mut t: Vec<char> = Vec::new();
    if width >= bytes {
        push_str(&mut t, " tab pane · / filter · ⏎ edit · s send · p cyclic · x stop · r raw · c clear · F3 dbc · F4 iface · F5 cyclic · F6 rules · F2 ");
        push_str(&mut t, m);
        push_str(&mut t, " · ? help · q quit ");
    } else {
        push_str(&mut t, " tab · / · ⏎ · s · p · x · r · c · F3 · F4 · F5 · F6 · ? · q  [");
        push_str(&mut t, m);
        push_str(&mut t, "] ");
    }
    assert(t@ =~= hint_line(mouse, width >= full_hint_bytes(mouse)));
    let line = string_of(&t);
    let mut out: Vec<char> = Vec::new();
    push_left(&mut out, line.as_str(), width);
    string_of(&out)
}


/// The fields as the header writes them, each after a bar.
pub open spec fn joined(fields: Seq<Seq<char>>) -> Seq<char>
    decreases fields.len(),
{
    if fields.len() == 0 {
        Seq::empty()
    } else {
        "│ "@ + fields[0] + " "@ + joined(fields.drop_first())
    }
}

/// The header never cuts a field: it is the link's words followed by the
/// first few fields, each whole, and when the link's words fit the width so
/// does the whole line.
pub proof fn law_the_header_drops_whole_fields(link: Seq<char>, fields: Seq<Seq<char>>, width: nat)
    ensures
        exists|k: int| 0 <= k <= fields.len() && #[trigger] header_from(link, fields, width) == link + joined(fields.take(k)),
        link.len() <= width ==> header_from(link, fields, width).len() <= width,
    decreases fields.len(),
{
    reveal_strlit("│ ");
    reveal_strlit(" ");
    if fields.len() == 0 {
        assert(header_from(link, fields, width) == link + joined(fields.take(0)));
    } else if link.len() + fields[0].len() + 3 > width {
        assert(joined(fields.take(0)) == Seq::<char>::empty());
        assert(header_from(link, fields, width) == link + joined(fields.take(0)));
    } else {
        let piece = "│ "@ + fields[0] + " "@;
        let rest = fields.drop_first();
        law_the_header_drops_whole_fields(link + piece, rest, width);
        let k = choose|k: int| 0 <= k <= rest.len() && #[trigger] header_from(link + piece, rest, width) == (link + piece) + joined(rest.take(k));
        assert(link + piece =~= link + "│ "@ + fields[0] + " "@);
        assert(header_from(link, fields, width) == header_from(link + piece, rest, width));
        let t = fields.take(k + 1);
        assert(t.len() > 0);
        assert(t[0] == fields[0]);
        assert(t.drop_first() =~= rest.take(k));
        assert(joined(t) == piece + joined(rest.take(k)));
        assert((link + piece) + joined(rest.take(k)) =~= link + joined(t));
        assert(header_from(link, fields, width) == link + joined(fields.take(k + 1)));
    }
}

} // verus!
