//! Moving through the interface, bitrate and DBC choosers.

use vstd::prelude::*;

use super::action::Action;
use super::{Picker, PickerKind, PickerRow};
use crate::fmt::{fmt_bitrate, spec_fmt_bitrate};
use crate::paths::{file_name, parent, path_eq, path_file_name, path_parent, path_strip_prefix, same_path, strip_prefix};
use crate::transport::discover::Candidate;
use crate::transport::spec::{TransportSpec, COMMON_BITRATES};

verus! {

/// The row a picker lands on after moving `step` rows from `index` over `len`
/// rows, wrapping round at either end; an empty picker stays at row 0.
pub open spec fn spec_picker_move(index: usize, step: i32, len: usize) -> usize {
    let n: int = if len >= 1 {
        len as int
    } else {
        1
    };
    ((index + step) % n) as usize
}

/// Move a picker's selection, wrapping round at either end.
pub fn picker_move(index: usize, step: i32, len: usize) -> (r: usize)
    requires
        index <= i32::MAX,
        len <= i32::MAX,
    ensures
        r == spec_picker_move(index, step, len),
        r < len || (len == 0 && r == 0),
{
    let n: u64 = if len >= 1 {
        len as u64
    } else {
        1
    };
    let i: u64 = index as u64 % n;
    if step >= 0 {
        let r = (i + step as u64) % n;
        proof {
            vstd::arithmetic::div_mod::lemma_add_mod_noop(index as int, step as int, n as int);
            vstd::arithmetic::div_mod::lemma_mod_twice(index as int, n as int);
            vstd::arithmetic::div_mod::lemma_add_mod_noop(i as int, step as int, n as int);
        }
        r as usize
    } else {
        let d: u64 = (0i64 - step as i64) as u64 % n;
        let r = (i + (n - d)) % n;
        proof {
            let a = index as int;
            let b = step as int;
            let m = n as int;
            let q = (-b) / m;
            vstd::arithmetic::div_mod::lemma_fundamental_div_mod(-b, m);
            assert(b == m * (-q - 1) + (m - d)) by (nonlinear_arith)
                requires
                    -b == m * q + d,
            ;
            vstd::arithmetic::div_mod::lemma_mod_multiples_vanish(-q - 1, m - d, m);
            vstd::arithmetic::div_mod::lemma_add_mod_noop(a, b, m);
            vstd::arithmetic::div_mod::lemma_add_mod_noop(i as int, m - d, m);
            vstd::arithmetic::div_mod::lemma_mod_twice(a, m);
        }
        r as usize
    }
}


/// What an action does to an open picker.
#[derive(Clone, Copy, Debug, PartialEq, Eq, Structural)]
pub enum PickerStep {
    /// Still open (the selection may have moved).
    Stay,
    /// Closed without a choice; `startup` when it was a launch picker, which
    /// has to say how to get back to it.
    Cancelled { startup: bool },
    /// The selected row was chosen.
    Accept,
    Quit,
}

/// Where the selection goes on a move of `step` rows: wrapping round (see
/// [`spec_picker_move`]) for any picker short of `i32::MAX` rows.
pub open spec fn moved_to(index: usize, step: i32, len: usize) -> usize {
    if index <= i32::MAX && len <= i32::MAX {
        spec_picker_move(index, step, len)
    } else {
        index
    }
}

/// Apply an action to an open picker: moves wrap the selection round, `esc`
/// closes it, `enter` chooses, `q` quits, and anything else does nothing.
pub fn picker_step(picker: &mut Picker, action: &Action) -> (s: PickerStep)
    ensures
        final(picker).title == old(picker).title,
        final(picker).rows == old(picker).rows,
        final(picker).kind == old(picker).kind,
        final(picker).startup == old(picker).startup,
        final(picker).then_interface == old(picker).then_interface,
        match *action {
            Action::PickerMove(step) => s == PickerStep::Stay && final(picker).index == moved_to(
                old(picker).index,
                step,
                old(picker).rows@.len() as usize,
            ),
            Action::Move(step) => s == PickerStep::Stay && final(picker).index == moved_to(
                old(picker).index,
                step,
                old(picker).rows@.len() as usize,
            ),
            Action::Cancel => s == (PickerStep::Cancelled { startup: old(picker).startup }) && final(picker).index
                == old(picker).index,
            Action::PickerAccept => s == PickerStep::Accept && final(picker).index == old(picker).index,
            Action::PromptSubmit => s == PickerStep::Accept && final(picker).index == old(picker).index,
            Action::Quit => s == PickerStep::Quit && final(picker).index == old(picker).index,
            _ => s == PickerStep::Stay && final(picker).index == old(picker).index,
        },
{
    match action {
        Action::PickerMove(step) | Action::Move(step) => {
            let len = picker.rows.len();
            if picker.index <= i32::MAX as usize && len <= i32::MAX as usize {
                picker.index = picker_move(picker.index, *step, len);
            }
            PickerStep::Stay
        },
        Action::Cancel => PickerStep::Cancelled { startup: picker.startup },
        Action::PickerAccept | Action::PromptSubmit => PickerStep::Accept,
        Action::Quit => PickerStep::Quit,
        _ => PickerStep::Stay,
    }
}

/// What choosing a row does.
#[derive(Clone, Debug)]
pub enum Choice {
    /// The row is not there.
    Nothing,
    /// An adapter that takes a bitrate: ask for one before connecting.
    AskBitrate(TransportSpec),
    Connect(TransportSpec),
    /// Remember the bitrate and connect at it.
    ConnectAt(u32, TransportSpec),
    /// Load a DBC (when the row is there), then chain into the interface
    /// picker when asked to.
    Load { path: Option<String>, then_interface: bool },
}

/// The bitrate the bitrate picker's row `index` offers, 500 kbit/s past the
/// end.
pub open spec fn offered_rate(index: usize) -> u32 {
    if index < 4 {
        COMMON_BITRATES@[index as int]
    } else {
        500_000
    }
}

/// What choosing row `index` of a picker does: an interface that takes a
/// bitrate asks for one first and any other connects; a bitrate connects the
/// waiting adapter at it; a DBC file is loaded, chaining into the interface
/// picker when asked.
pub fn picker_choice(kind: PickerKind, index: usize, then_interface: bool) -> (c: Choice)
    ensures
        match kind {
            PickerKind::Interface(specs) => if index < specs@.len() {
                if specs@[index as int] is GsUsb || specs@[index as int] is Slcan {
                    c matches Choice::AskBitrate(s) && s == specs@[index as int]
                } else {
                    c matches Choice::Connect(s) && s == specs@[index as int]
                }
            } else {
                c is Nothing
            },
            PickerKind::Bitrate(spec) => c matches Choice::ConnectAt(rate, s) && rate == offered_rate(index) && s
                == spec.spec_with_bitrate(rate),
            PickerKind::Dbc(paths) => c matches Choice::Load { path, then_interface: t } && t == then_interface && (
            if index < paths@.len() {
                path == Some(paths@[index as int])
            } else {
                path is None
            }),
        },
{
    match kind {
        PickerKind::Interface(specs) => {
            if index >= specs.len() {
                return Choice::Nothing;
            }
            let spec = specs[index].duplicate();
            if spec.needs_bitrate() {
                Choice::AskBitrate(spec)
            } else {
                Choice::Connect(spec)
            }
        },
        PickerKind::Bitrate(spec) => {
            let rate = if index < 4 {
                COMMON_BITRATES[index]
            } else {
                500_000
            };
            Choice::ConnectAt(rate, spec.with_bitrate(rate))
        },
        PickerKind::Dbc(paths) => {
            let path = if index < paths.len() {
                Some(paths[index].clone())
            } else {
                None
            };
            Choice::Load { path, then_interface }
        },
    }
}

/// What the interface picker connects to, row by row.
pub open spec fn specs_of(found: Seq<Candidate>) -> Seq<TransportSpec> {
    found.map_values(|c: Candidate| c.spec)
}

/// The first row from `i` on that is the same device as `last`; the top row
/// when none is.
pub open spec fn first_same(specs: Seq<TransportSpec>, last: TransportSpec, i: int) -> int
    decreases specs.len() - i,
{
    if i < 0 || i >= specs.len() {
        0
    } else if specs[i].spec_same_device(last) {
        i
    } else {
        first_same(specs, last, i + 1)
    }
}

/// The row the interface picker opens on: the device used last time, when it
/// is still there, otherwise the top row.
pub open spec fn remembered_row(specs: Seq<TransportSpec>, configured: Option<TransportSpec>) -> int {
    match configured {
        Some(last) => first_same(specs, last, 0),
        None => 0,
    }
}

/// The interface picker over what a scan found, opened on the device used
/// last time.
pub fn interface_picker(found: &Vec<Candidate>, configured: &Option<TransportSpec>, startup: bool) -> (p: Picker)
    ensures
        p.title@ == "interface"@,
        p.rows@.len() == found@.len(),
        forall|i: int|
            0 <= i < found@.len() ==> (#[trigger] p.rows@[i]).label@ == found@[i].label@ && p.rows@[i].detail@
                == found@[i].detail@,
        p.kind matches PickerKind::Interface(specs) && specs@ == specs_of(found@),
        p.index == remembered_row(specs_of(found@), *configured),
        p.startup == startup,
        !p.then_interface,
{
    let mut rows: Vec<PickerRow> = Vec::new();
    let mut specs: Vec<TransportSpec> = Vec::new();
    let mut index: usize = 0;
    let mut matched = false;
    let mut i: usize = 0;
    while i < found.len()
        invariant
            i <= found@.len(),
            rows@.len() == i,
            specs@ == specs_of(found@).take(i as int),
            forall|j: int|
                0 <= j < i ==> (#[trigger] rows@[j]).label@ == found@[j].label@ && rows@[j].detail@
                    == found@[j].detail@,
            match *configured {
                Some(last) => if matched {
                    index < i && first_same(specs_of(found@), last, 0) == index
                } else {
                    index == 0 && first_same(specs_of(found@), last, 0) == first_same(specs_of(found@), last, i as int)
                },
                None => index == 0 && !matched,
            },
        decreases found@.len() - i,
    {
        let c = &found[i];
        rows.push(PickerRow { label: c.label.clone(), detail: c.detail.clone() });
        specs.push(c.spec.duplicate());
        if !matched {
            match configured {
                Some(last) => {
                    if c.spec.same_device(last) {
                        index = i;
                        matched = true;
                    }
                },
                None => {},
            }
        }
        i += 1;
        assert(specs@ =~= specs_of(found@).take(i as int));
    }
    assert(specs@ =~= specs_of(found@));
    Picker { title: "interface".to_owned(), rows, index, kind: PickerKind::Interface(specs), startup, then_interface: false }
}

/// The bitrate picker's row for `rate`: where the list offers it, the top row
/// otherwise.
pub open spec fn rate_row(rate: u32) -> usize {
    if rate == COMMON_BITRATES@[0] {
        0
    } else if rate == COMMON_BITRATES@[1] {
        1
    } else if rate == COMMON_BITRATES@[2] {
        2
    } else if rate == COMMON_BITRATES@[3] {
        3
    } else {
        0
    }
}

/// The bitrate picker for an adapter that waits on one, opened on the rate in
/// use.
pub fn bitrate_picker(spec: TransportSpec, rate: u32, startup: bool) -> (p: Picker)
    ensures
        p.title@ == "bitrate"@,
        p.rows@.len() == 4,
        forall|i: int|
            0 <= i < 4 ==> (#[trigger] p.rows@[i]).label@ == spec_fmt_bitrate(COMMON_BITRATES@[i])
                && p.rows@[i].detail@ == Seq::<char>::empty(),
        p.index == rate_row(rate),
        p.kind matches PickerKind::Bitrate(s) && s == spec,
        p.startup == startup,
        !p.then_interface,
{
    let mut rows: Vec<PickerRow> = Vec::new();
    let mut index: usize = 0;
    let mut found = false;
    let mut i: usize = 0;
    while i < 4
        invariant
            i <= 4,
            rows@.len() == i,
            forall|j: int|
                0 <= j < i ==> (#[trigger] rows@[j]).label@ == spec_fmt_bitrate(COMMON_BITRATES@[j])
                    && rows@[j].detail@ == Seq::<char>::empty(),
            found ==> index < i && rate_row(rate) == index,
            !found ==> index == 0 && forall|j: int| 0 <= j < i ==> COMMON_BITRATES@[j] != rate,
        decreases 4 - i,
    {
        let b = COMMON_BITRATES[i];
        rows.push(PickerRow { label: fmt_bitrate(b), detail: String::new() });
        if !found && b == rate {
            index = i;
            found = true;
        }
        i += 1;
    }
    Picker { title: "bitrate".to_owned(), rows, index, kind: PickerKind::Bitrate(spec), startup, then_interface: false }
}

/// A DBC picker row's left column: the file's name.
pub open spec fn dbc_label(path: Seq<char>) -> Seq<char> {
    match path_file_name(path) {
        Some(n) => n,
        None => Seq::empty(),
    }
}

/// A DBC picker row's right column: the folder, relative to where the tool was
/// started when it lies under it, `.` when that leaves nothing.
pub open spec fn dbc_folder(path: Seq<char>, cwd: Seq<char>) -> Seq<char> {
    match path_parent(path) {
        Some(dir) => {
            let rel = match path_strip_prefix(dir, cwd) {
                Some(r) => r,
                None => dir,
            };
            if rel.len() == 0 {
                "."@
            } else {
                rel
            }
        },
        None => "."@,
    }
}

/// The first of `paths` from `i` on that is the same path as `last`; the top
/// row when none is.
pub open spec fn first_path(paths: Seq<Seq<char>>, last: Seq<char>, i: int) -> int
    decreases paths.len() - i,
{
    if i < 0 || i >= paths.len() {
        0
    } else if path_eq(paths[i], last) {
        i
    } else {
        first_path(paths, last, i + 1)
    }
}

/// The text of each path.
pub open spec fn texts(paths: Seq<String>) -> Seq<Seq<char>> {
    paths.map_values(|p: String| p@)
}

fn folder(path: &str, cwd: &str) -> (d: String)
    ensures
        d@ == dbc_folder(path@, cwd@),
{
    proof {
        reveal_strlit(".");
    }
    match parent(path) {
        Some(dir) => {
            let rel = match strip_prefix(dir.as_str(), cwd) {
                Some(r) => r,
                None => dir,
            };
            if rel.as_str().is_empty() {
                ".".to_owned()
            } else {
                rel
            }
        },
        None => ".".to_owned(),
    }
}

/// The DBC picker over the files found under `cwd`, opened on the file loaded
/// last time; nothing when no file was found.
pub fn dbc_picker(found: Vec<String>, cwd: &str, configured: &Option<String>, startup: bool, then_interface: bool) -> (r: Option<Picker>)
    ensures
        found@.len() == 0 <==> r is None,
        match r {
            Some(p) => {
                &&& p.title@ == "dbc file"@
                &&& p.rows@.len() == found@.len()
                &&& forall|i: int|
                    0 <= i < found@.len() ==> (#[trigger] p.rows@[i]).label@ == dbc_label(found@[i]@)
                        && p.rows@[i].detail@ == dbc_folder(found@[i]@, cwd@)
                &&& p.index == match *configured {
                    Some(last) => first_path(texts(found@), last@, 0),
                    None => 0,
                }
                &&& p.kind matches PickerKind::Dbc(paths) && paths@ == found@
                &&& p.startup == startup
                &&& p.then_interface == then_interface
            },
            None => true,
        },
{
    if found.len() == 0 {
        return None;
    }
    let mut rows: Vec<PickerRow> = Vec::new();
    let mut index: usize = 0;
    let mut matched = false;
    let mut i: usize = 0;
    while i < found.len()
        invariant
            i <= found@.len(),
            rows@.len() == i,
            forall|j: int|
                0 <= j < i ==> (#[trigger] rows@[j]).label@ == dbc_label(found@[j]@) && rows@[j].detail@
                    == dbc_folder(found@[j]@, cwd@),
            match *configured {
                Some(last) => if matched {
                    index < i && first_path(texts(found@), last@, 0) == index
                } else {
                    index == 0 && first_path(texts(found@), last@, 0) == first_path(texts(found@), last@, i as int)
                },
                None => index == 0 && !matched,
            },
        decreases found@.len() - i,
    {
        let p = found[i].as_str();
        let label = match file_name(p) {
            Some(n) => n,
            None => String::new(),
        };
        rows.push(PickerRow { label, detail: folder(p, cwd) });
        if !matched {
            match configured {
                Some(last) => {
                    if same_path(p, last.as_str()) {
                        index = i;
                        matched = true;
                    }
                },
                None => {},
            }
        }
        i += 1;
    }
    Some(Picker { title: "dbc file".to_owned(), rows, index, kind: PickerKind::Dbc(found), startup, then_interface })
}

} // verus!
