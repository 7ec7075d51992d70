//! What a parsed DBC file means to the tool: which frames it describes, their
//! send periods and value tables, how signals are multiplexed, and how the
//! file's bytes are read as text.
//!
//! `can_dbc` parses the text; what it found arrives here as the plain values
//! below (see [`parse_dbc`]), and [`load_text`] turns a file's bytes into
//! the database.

use std::collections::BTreeMap;

use vstd::prelude::*;

use super::{Database, MessageDef, Mux, SignalDef, sorted_messages};
use crate::canid::{self, Id};
use crate::text::{chars_of, parse_radix_within, radix_within, string_of, str_eq};

verus! {

/// Vector's conventional attribute for a message's send period.
pub const CYCLE_TIME_ATTR: &'static str = "GenMsgCycleTime";

/// A message identifier as the file writes it.
#[derive(Clone, Copy, Debug, PartialEq, Eq, Structural)]
pub enum RawId {
    Standard(u16),
    /// 29 bits, without the extended flag.
    Extended(u32),
}

/// The identifier a message of the file is sent with.
pub open spec fn spec_message_id(id: RawId) -> (u32, bool) {
    match id {
        RawId::Standard(v) => canid::spec_make(v as u32, false),
        RawId::Extended(v) => canid::spec_make(v, true),
    }
}

/// The identifier a message of the file is sent with.
pub fn message_id(id: RawId) -> (r: Option<Id>)
    ensures
        r matches Some(i) && i.value() == spec_message_id(id).0 && i.is_ext() == spec_message_id(id).1,
{
    match id {
        RawId::Standard(v) => canid::make(v as u32, false),
        RawId::Extended(v) => canid::make(v, true),
    }
}

/// A message attribute's value. A floating-point value arrives as its whole
/// part, saturated to `u32` (0 for a value not above zero).
#[derive(Clone, Debug)]
pub enum AttrValue {
    Uint(u64),
    Int(i64),
    Double { whole: u32 },
    Text(String),
}

/// A message attribute: `BA_ "name" BO_ id value;`.
#[derive(Clone, Debug)]
pub struct MessageAttr {
    pub name: String,
    pub message: RawId,
    pub value: AttrValue,
}

/// The period in milliseconds an attribute value gives, when it gives one:
/// an unsigned number (cut to 32 bits), a positive integer, a real (its whole
/// part), or text holding a decimal number that fits 32 bits.
pub open spec fn attr_ms(v: AttrValue) -> Option<u32> {
    match v {
        AttrValue::Uint(u) => Some(u as u32),
        AttrValue::Int(i) => if i > 0 {
            Some(i as u32)
        } else {
            None
        },
        AttrValue::Double { whole } => Some(whole),
        AttrValue::Text(s) => match radix_within(s@, 10, u32::MAX as nat) {
            Some(n) => Some(n as u32),
            None => None,
        },
    }
}

/// The send period of message `id`: the first `GenMsgCycleTime` attribute of
/// that message, from position `i` on, that gives a period above zero.
pub open spec fn cycle_from(attrs: Seq<MessageAttr>, id: RawId, i: int) -> Option<u32>
    decreases attrs.len() - i,
{
    if i < 0 || i >= attrs.len() {
        None
    } else if attrs[i].name@ == CYCLE_TIME_ATTR@ && attrs[i].message == id && (attr_ms(attrs[i].value) matches Some(
        ms,
    ) && ms > 0) {
        attr_ms(attrs[i].value)
    } else {
        cycle_from(attrs, id, i + 1)
    }
}

fn attr_period(v: &AttrValue) -> (r: Option<u32>)
    ensures
        r == attr_ms(*v),
{
    match v {
        AttrValue::Uint(u) => Some(*u as u32),
        AttrValue::Int(i) => if *i > 0 {
            Some(*i as u32)
        } else {
            None
        },
        AttrValue::Double { whole } => Some(*whole),
        AttrValue::Text(s) => {
            let cs = chars_of(s.as_str());
            proof {
                assert(cs@.subrange(0, cs@.len() as int) =~= cs@);
            }
            match parse_radix_within(&cs, 0, 10, u32::MAX as u64) {
                Some(n) => Some(n as u32),
                None => None,
            }
        },
    }
}

/// The send period of message `id` (see [`cycle_from`]).
pub fn cycle_time(attrs: &Vec<MessageAttr>, id: RawId) -> (r: Option<u32>)
    ensures
        r == cycle_from(attrs@, id, 0),
{
    let mut i: usize = 0;
    while i < attrs.len()
        invariant
            0 <= i <= attrs@.len(),
            cycle_from(attrs@, id, 0) == cycle_from(attrs@, id, i as int),
        decreases attrs@.len() - i,
    {
        let a = &attrs[i];
        if str_eq(a.name.as_str(), CYCLE_TIME_ATTR) && a.message == id {
            if let Some(ms) = attr_period(&a.value) {
                if ms > 0 {
                    return Some(ms);
                }
            }
        }
        i = i + 1;
    }
    None
}

/// A value table of one signal: `VAL_ id signal raw "name" …;`.
#[derive(Clone, Debug)]
pub struct SignalValues {
    pub message: RawId,
    pub signal: String,
    pub values: Vec<(i64, String)>,
}

/// A `VAL_` entry of the file: a signal's value table, or an environment
/// variable's, which the tool has no use for.
#[derive(Clone, Debug)]
pub enum RawTable {
    Signal(SignalValues),
    Environment,
}

/// The first `n` entries of a value table as a map; a raw value listed twice
/// keeps its last name.
pub open spec fn table_map(values: Seq<(i64, String)>, n: int) -> Map<i64, String>
    decreases n,
{
    if n <= 0 {
        Map::empty()
    } else {
        table_map(values, n - 1).insert(values[n - 1].0, values[n - 1].1)
    }
}

/// The value table of a signal: the first table for that message and signal,
/// from position `i` on, or none.
pub open spec fn choices_from(descs: Seq<RawTable>, id: RawId, signal: Seq<char>, i: int) -> Map<i64, String>
    decreases descs.len() - i,
{
    if i < 0 || i >= descs.len() {
        Map::empty()
    } else {
        match descs[i] {
            RawTable::Signal(t) => if t.message == id && t.signal@ == signal {
                table_map(t.values@, t.values@.len() as int)
            } else {
                choices_from(descs, id, signal, i + 1)
            },
            RawTable::Environment => choices_from(descs, id, signal, i + 1),
        }
    }
}

fn add_choice(m: &mut BTreeMap<i64, String>, raw: i64, name: String)
    ensures
        final(m)@ == old(m)@.insert(raw, name),
{
    broadcast use vstd::std_specs::btree::group_btree_axioms;
    broadcast use vstd::laws_cmp::group_laws_cmp;

    m.insert(raw, name);
}

/// The value table of a signal (see [`choices_from`]).
pub fn choices(descs: &Vec<RawTable>, id: RawId, signal: &str) -> (m: BTreeMap<i64, String>)
    ensures
        m@ == choices_from(descs@, id, signal@, 0),
{
    let mut i: usize = 0;
    while i < descs.len()
        invariant
            0 <= i <= descs@.len(),
            choices_from(descs@, id, signal@, 0) == choices_from(descs@, id, signal@, i as int),
        decreases descs@.len() - i,
    {
        if let RawTable::Signal(d) = &descs[i] {
            if d.message == id && str_eq(d.signal.as_str(), signal) {
                let mut m: BTreeMap<i64, String> = BTreeMap::new();
                let mut k: usize = 0;
                while k < d.values.len()
                    invariant
                        0 <= k <= d.values@.len(),
                        m@ == table_map(d.values@, k as int),
                    decreases d.values@.len() - k,
                {
                    let name = d.values[k].1.clone();
                    add_choice(&mut m, d.values[k].0, name);
                    k = k + 1;
                }
                return m;
            }
        }
        i = i + 1;
    }
    BTreeMap::new()
}

/// How the file marks a signal's part in multiplexing.
#[derive(Clone, Copy, Debug, PartialEq, Eq, Structural)]
pub enum RawMux {
    Plain,
    /// `M`: the signal is the multiplexor.
    Multiplexor,
    /// `m3`: present when the multiplexor holds 3.
    Multiplexed(u64),
    /// `m3M`: multiplexed, and itself a multiplexor for signals further down.
    MultiplexedMultiplexor(u64),
}

/// Whether `r` is how the tool reads the file's mark `m`: a nested
/// multiplexor is read as the value that selects it.
pub open spec fn mux_from(m: RawMux, r: Mux) -> bool {
    match m {
        RawMux::Plain => r is Plain,
        RawMux::Multiplexor => r is Selector,
        RawMux::Multiplexed(v) => r matches Mux::SelectedBy(vs) && vs@ == seq![v],
        RawMux::MultiplexedMultiplexor(v) => r matches Mux::SelectedBy(vs) && vs@ == seq![v],
    }
}

/// How a signal relates to its message's multiplexor (see [`mux_from`]).
pub fn mux_of(m: RawMux) -> (r: Mux)
    ensures
        mux_from(m, r),
{
    match m {
        RawMux::Plain => Mux::Plain,
        RawMux::Multiplexor => Mux::Selector,
        RawMux::Multiplexed(v) | RawMux::MultiplexedMultiplexor(v) => {
            let mut vs: Vec<u64> = Vec::new();
            vs.push(v);
            Mux::SelectedBy(vs)
        },
    }
}

/// The text in a file's bytes, as UTF-8 when they are, and otherwise as
/// Latin-1 (each byte one character): DBC files are commonly Latin-1 (degree
/// signs in units, names with umlauts), and refusing to open one over a unit
/// string would be a poor trade.
pub open spec fn spec_decode_text(bytes: Seq<u8>) -> Seq<char> {
    if vstd::utf8::valid_utf8(bytes) {
        vstd::utf8::decode_utf8(bytes)
    } else {
        bytes.map_values(|b: u8| b as char)
    }
}

/// The bytes as UTF-8 text, when they are.
///
/// Trusted: calls `String::from_utf8`, which std documents as accepting
/// exactly well-formed UTF-8 and decoding it.
#[verifier::external_body]
fn utf8_text(bytes: Vec<u8>) -> (r: Option<String>)
    ensures
        match r {
            Some(s) => vstd::utf8::valid_utf8(bytes@) && s@ == vstd::utf8::decode_utf8(bytes@),
            None => !vstd::utf8::valid_utf8(bytes@),
        },
{
    String::from_utf8(bytes).ok()
}

/// The text in a file's bytes (see [`spec_decode_text`]).
pub fn decode_text(bytes: Vec<u8>) -> (s: String)
    ensures
        s@ == spec_decode_text(bytes@),
{
    let ghost b = bytes@;
    let mut latin: Vec<char> = Vec::new();
    let mut i: usize = 0;
    while i < bytes.len()
        invariant
            0 <= i <= bytes@.len(),
            b == bytes@,
            latin@ == b.subrange(0, i as int).map_values(|x: u8| x as char),
        decreases bytes@.len() - i,
    {
        latin.push(bytes[i] as char);
        proof {
            assert(b.subrange(0, i + 1).map_values(|x: u8| x as char) =~= b.subrange(0, i as int).map_values(
                |x: u8| x as char,
            ).push(bytes@[i as int] as char));
        }
        i = i + 1;
    }
    proof {
        assert(b.subrange(0, b.len() as int) =~= b);
    }
    match utf8_text(bytes) {
        Some(s) => s,
        None => string_of(&latin),
    }
}

/// Why a parsed file was refused.
#[derive(Clone, Copy, Debug, PartialEq, Eq, Structural)]
pub enum LoadError {
    /// The text is not a DBC file.
    NotDbc,
    /// The file parsed, but defines no messages.
    NoMessages,
}

/// The database a parsed file gives: refused when it defines no messages.
pub fn finish(path: String, messages: Vec<MessageDef>) -> (r: Result<Database, LoadError>)
    ensures
        match r {
            Ok(db) => messages@.len() > 0 && db.wf() && db.path == path && db.messages@ == sorted_messages(
                messages@,
            ),
            Err(e) => messages@.len() == 0 && e == LoadError::NoMessages,
        },
{
    if messages.len() == 0 {
        return Err(LoadError::NoMessages);
    }
    Ok(Database::new(path, messages))
}


/// Directories the DBC search never enters: hidden ones, and those that never
/// hold a hand-written DBC but can hold thousands of files.
pub open spec fn skipped_dir(name: Seq<char>) -> bool {
    (name.len() > 0 && name[0] == '.') || name == "target"@ || name == "build"@ || name == "dist"@
        || name == "node_modules"@ || name == "venv"@ || name == ".venv"@ || name == "__pycache__"@
}

/// Whether the DBC search skips a directory of this name.
pub fn skip_dir(name: &str) -> (r: bool)
    ensures
        r == skipped_dir(name@),
{
    let cs = chars_of(name);
    if cs.len() > 0 && cs[0] == '.' {
        return true;
    }
    str_eq(name, "target") || str_eq(name, "build") || str_eq(name, "dist") || str_eq(name, "node_modules")
        || str_eq(name, "venv") || str_eq(name, ".venv") || str_eq(name, "__pycache__")
}

/// How many directory levels below the start the DBC search looks.
pub const SEARCH_DEPTH: usize = 3;

/// The most files the DBC search offers.
pub const SEARCH_LIMIT: usize = 200;

/// One entry of a directory listing: its path, its name, and whether it is a
/// directory or a file.
pub struct DirEntry {
    pub path: String,
    pub name: String,
    pub is_dir: bool,
    pub is_file: bool,
}

/// The text of each path.
pub open spec fn path_texts(paths: Seq<String>) -> Seq<Seq<char>> {
    paths.map_values(|p: String| p@)
}

/// The search after the first `n` entries of one directory, as (files found,
/// directories to look in next): a directory is kept for the next level
/// unless its name is skipped; a file is offered when its name marks it a DBC
/// and fewer than [`SEARCH_LIMIT`] have been found.
pub open spec fn searched(found: Seq<Seq<char>>, next: Seq<Seq<char>>, entries: Seq<DirEntry>, n: int) -> (
    Seq<Seq<char>>,
    Seq<Seq<char>>,
)
    decreases n,
{
    if n <= 0 {
        (found, next)
    } else {
        let (f, d) = searched(found, next, entries, n - 1);
        let e = entries[n - 1];
        if e.is_dir {
            if skipped_dir(e.name@) {
                (f, d)
            } else {
                (f, d.push(e.path@))
            }
        } else if e.is_file && dbc_named(e.name@) && f.len() < SEARCH_LIMIT {
            (f.push(e.path@), d)
        } else {
            (f, d)
        }
    }
}

/// Whether the search goes down another level: it looks [`SEARCH_DEPTH`]
/// levels deep and stops once [`SEARCH_LIMIT`] files are found.
pub fn keep_searching(levels_done: usize, found: usize) -> (r: bool)
    ensures
        r == (levels_done < SEARCH_DEPTH && found < SEARCH_LIMIT),
{
    levels_done < SEARCH_DEPTH && found < SEARCH_LIMIT
}

/// Take in one directory's entries (see [`searched`]).
pub fn search_entries(found: &mut Vec<String>, next: &mut Vec<String>, entries: &Vec<DirEntry>)
    ensures
        (path_texts(final(found)@), path_texts(final(next)@)) == searched(
            path_texts(old(found)@),
            path_texts(old(next)@),
            entries@,
            entries@.len() as int,
        ),
{
    let mut i: usize = 0;
    while i < entries.len()
        invariant
            0 <= i <= entries@.len(),
            (path_texts(found@), path_texts(next@)) == searched(
                path_texts(old(found)@),
                path_texts(old(next)@),
                entries@,
                i as int,
            ),
        decreases entries@.len() - i,
    {
        let e = &entries[i];
        let ghost f0 = found@;
        let ghost d0 = next@;
        if e.is_dir {
            if !skip_dir(e.name.as_str()) {
                next.push(e.path.clone());
                assert(path_texts(next@) =~= path_texts(d0).push(e.path@));
            }
        } else if e.is_file && is_dbc_name(e.name.as_str()) && found.len() < SEARCH_LIMIT {
            found.push(e.path.clone());
            assert(path_texts(found@) =~= path_texts(f0).push(e.path@));
        }
        i = i + 1;
    }
}

/// A letter in lower case, for comparing without regard to ASCII case.
pub open spec fn ascii_lower(c: char) -> char {
    if 'A' <= c <= 'Z' {
        ((c as u32) + 32) as char
    } else {
        c
    }
}

/// The position of the last `.` among the first `n` characters.
pub open spec fn last_dot(s: Seq<char>, n: int) -> Option<int>
    decreases n,
{
    if n <= 0 {
        None
    } else if s[n - 1] == '.' {
        Some(n - 1)
    } else {
        last_dot(s, n - 1)
    }
}

/// A file name's extension, as a path gives it: what follows the last dot,
/// unless that dot starts the name.
pub open spec fn extension(name: Seq<char>) -> Option<Seq<char>> {
    match last_dot(name, name.len() as int) {
        Some(p) => if p > 0 {
            Some(name.subrange(p + 1, name.len() as int))
        } else {
            None
        },
        None => None,
    }
}

/// Whether a file name has the extension `dbc`, in any case.
pub open spec fn dbc_named(name: Seq<char>) -> bool {
    extension(name) matches Some(e) && e.len() == 3 && ascii_lower(e[0]) == 'd' && ascii_lower(e[1]) == 'b'
        && ascii_lower(e[2]) == 'c'
}

fn lower_is(c: char, want: char) -> (r: bool)
    requires
        'a' <= want <= 'z',
    ensures
        r == (ascii_lower(c) == want),
{
    c == want || (c as u32) + 32 == want as u32
}

proof fn lemma_last_dot_bounds(s: Seq<char>, n: int)
    requires
        0 <= n <= s.len(),
    ensures
        last_dot(s, n) matches Some(p) ==> 0 <= p < n && s[p] == '.',
        last_dot(s, n) is None ==> forall|j: int| 0 <= j < n ==> s[j] != '.',
    decreases n,
{
    if n > 0 {
        lemma_last_dot_bounds(s, n - 1);
    }
}

/// Whether a file is offered as a DBC (see [`dbc_named`]).
pub fn is_dbc_name(name: &str) -> (r: bool)
    ensures
        r == dbc_named(name@),
{
    let cs = chars_of(name);
    let mut i: usize = cs.len();
    while i > 0 && cs[i - 1] != '.'
        invariant
            0 <= i <= cs@.len(),
            cs@ == name@,
            last_dot(cs@, cs@.len() as int) == last_dot(cs@, i as int),
        decreases i,
    {
        i = i - 1;
    }
    if i == 0 {
        return false;
    }
    let p = i - 1;
    assert(last_dot(cs@, i as int) == Some(p as int));
    if p == 0 || cs.len() - i != 3 {
        return false;
    }
    lower_is(cs[i], 'd') && lower_is(cs[i + 1], 'b') && lower_is(cs[i + 2], 'c')
}

/// A signal as the file describes it, less its floating-point scale.
#[derive(Clone, Debug)]
pub struct RawSignal {
    pub name: String,
    pub start: u64,
    pub size: u64,
    pub big_endian: bool,
    pub signed: bool,
    pub unit: String,
    pub mux: RawMux,
}

/// A message as the file describes it.
#[derive(Clone, Debug)]
pub struct RawMessage {
    pub id: RawId,
    pub name: String,
    pub size: u64,
    pub signals: Vec<RawSignal>,
}

/// What the tool reads of a parsed DBC file: its messages, their attributes
/// and the value tables, in the file's order.
#[derive(Clone, Debug)]
pub struct RawDbc {
    pub messages: Vec<RawMessage>,
    pub attrs: Vec<MessageAttr>,
    pub tables: Vec<RawTable>,
}

#[verifier::external_type_specification]
#[verifier::external_body]
pub struct ExDbcMessage(can_dbc::Message);

#[verifier::external_type_specification]
#[verifier::external_body]
pub struct ExDbcSignal(can_dbc::Signal);

#[verifier::external_type_specification]
#[verifier::external_body]
pub struct ExDbcMessageId(can_dbc::MessageId);

#[verifier::external_type_specification]
#[verifier::external_body]
pub struct ExDbcMultiplexIndicator(can_dbc::MultiplexIndicator);

#[verifier::external_type_specification]
#[verifier::external_body]
pub struct ExDbcMessageAttribute(can_dbc::AttributeValueForMessage);

#[verifier::external_type_specification]
#[verifier::external_body]
pub struct ExDbcValueDescription(can_dbc::ValueDescription);

/// What `can_dbc` parses a text into, read as plain values; nothing when it
/// refuses the text.
pub uninterp spec fn parsed_dbc(text: Seq<char>) -> Option<RawDbc>;

/// Parse DBC text.
///
/// Trusted: calls `can_dbc::Dbc::try_from` and converts its messages,
/// message attributes and value descriptions field for field (see the
/// conversions below); a refusal gives nothing. The result depends on the
/// text alone.
#[verifier::external_body]
fn parse_dbc(text: &str) -> (r: Option<RawDbc>)
    ensures
        r == parsed_dbc(text@),
{
    let dbc = can_dbc::Dbc::try_from(text).ok()?;
    Some(RawDbc {
        messages: dbc.messages.iter().map(raw_message).collect(),
        attrs: dbc.attribute_values_message.iter().map(raw_attr).collect(),
        tables: dbc.value_descriptions.iter().map(raw_table).collect(),
    })
}

/// A parsed message, field for field.
///
/// Trusted: reads `can_dbc::Message`'s public fields; its floating-point
/// parts are not read.
#[verifier::external_body]
fn raw_message(m: &can_dbc::Message) -> RawMessage {
    RawMessage {
        id: raw_id(&m.id),
        name: m.name.clone(),
        size: m.size,
        signals: m.signals.iter().map(raw_signal).collect(),
    }
}

/// A parsed signal, field for field, less its scale.
///
/// Trusted: reads `can_dbc::Signal`'s public fields, telling its byte order
/// and value type apart by variant; its floating-point parts are not read.
#[verifier::external_body]
fn raw_signal(s: &can_dbc::Signal) -> RawSignal {
    RawSignal {
        name: s.name.clone(),
        start: s.start_bit,
        size: s.size,
        big_endian: matches!(s.byte_order, can_dbc::ByteOrder::BigEndian),
        signed: matches!(s.value_type, can_dbc::ValueType::Signed),
        unit: s.unit.clone(),
        mux: raw_mux(&s.multiplexer_indicator),
    }
}

/// A parsed message identifier, variant for variant.
///
/// Trusted: reads `can_dbc::MessageId`.
#[verifier::external_body]
fn raw_id(id: &can_dbc::MessageId) -> RawId {
    match *id {
        can_dbc::MessageId::Standard(v) => RawId::Standard(v),
        can_dbc::MessageId::Extended(v) => RawId::Extended(v),
    }
}

/// A parsed multiplexing mark, variant for variant.
///
/// Trusted: reads `can_dbc::MultiplexIndicator`.
#[verifier::external_body]
fn raw_mux(m: &can_dbc::MultiplexIndicator) -> RawMux {
    match *m {
        can_dbc::MultiplexIndicator::Plain => RawMux::Plain,
        can_dbc::MultiplexIndicator::Multiplexor => RawMux::Multiplexor,
        can_dbc::MultiplexIndicator::MultiplexedSignal(v) => RawMux::Multiplexed(v),
        can_dbc::MultiplexIndicator::MultiplexorAndMultiplexedSignal(v) => RawMux::MultiplexedMultiplexor(v),
    }
}

/// A parsed message attribute, field for field; a real value is cut to its
/// whole part, saturated to `u32`, as Rust's `as` does.
///
/// Trusted: reads `can_dbc::AttributeValueForMessage` and its value's variant.
#[verifier::external_body]
fn raw_attr(a: &can_dbc::AttributeValueForMessage) -> MessageAttr {
    let value = match &a.value {
        can_dbc::AttributeValue::Uint(u) => AttrValue::Uint(*u),
        can_dbc::AttributeValue::Int(i) => AttrValue::Int(*i),
        can_dbc::AttributeValue::Double(d) => AttrValue::Double { whole: *d as u32 },
        can_dbc::AttributeValue::String(t) => AttrValue::Text(t.clone()),
    };
    MessageAttr { name: a.name.clone(), message: raw_id(&a.message_id), value }
}

/// A parsed value description, variant for variant.
///
/// Trusted: reads `can_dbc::ValueDescription`; an environment variable's table
/// is not read.
#[verifier::external_body]
fn raw_table(v: &can_dbc::ValueDescription) -> RawTable {
    match v {
        can_dbc::ValueDescription::Signal { message_id, name, value_descriptions } => RawTable::Signal(SignalValues {
            message: raw_id(message_id),
            signal: name.clone(),
            values: value_descriptions.iter().map(|d| (d.id, d.description.clone())).collect(),
        }),
        can_dbc::ValueDescription::EnvironmentVariable { .. } => RawTable::Environment,
    }
}

/// Whether `d` is how the tool reads the file's signal `s` of message `id`:
/// its layout and unit as given (start and size cut to 16 bits), its value
/// table (see [`choices_from`]) and its multiplexing (see [`mux_from`]).
pub open spec fn signal_from(d: SignalDef, s: RawSignal, tables: Seq<RawTable>, id: RawId) -> bool {
    &&& d.name@ == s.name@
    &&& d.start == s.start as u16
    &&& d.len == s.size as u16
    &&& d.big_endian == s.big_endian
    &&& d.signed == s.signed
    &&& d.unit@ == s.unit@
    &&& d.choices@ == choices_from(tables, id, s.name@, 0)
    &&& mux_from(s.mux, d.mux)
}

/// Whether `m` is how the tool reads the file's message `r`: its identifier
/// (see [`spec_message_id`]), name, length, send period (see [`cycle_from`])
/// and its signals in order.
pub open spec fn message_from(m: MessageDef, r: RawMessage, raw: RawDbc) -> bool {
    &&& m.id.value() == spec_message_id(r.id).0
    &&& m.id.is_ext() == spec_message_id(r.id).1
    &&& m.name@ == r.name@
    &&& m.len == r.size as usize
    &&& m.cycle_time_ms == cycle_from(raw.attrs@, r.id, 0)
    &&& m.signals@.len() == r.signals@.len()
    &&& forall|j: int|
        0 <= j < r.signals@.len() ==> signal_from(
            #[trigger] m.signals@[j],
            r.signals@[j],
            raw.tables@,
            r.id,
        )
}

/// The name Vector's tools give the pseudo-message that holds signals not
/// sent in any frame.
pub const INDEPENDENT_SIGNALS: &'static str = "VECTOR__INDEPENDENT_SIG_MSG";

/// Whether a message of the file is the independent-signals pseudo-message:
/// named as Vector names it, with the identifier it is written with
/// (`3221225472`, read as extended identifier 0). It carries no real frame.
pub open spec fn is_placeholder(name: Seq<char>, id: RawId) -> bool {
    name == INDEPENDENT_SIGNALS@ && id == RawId::Extended(0)
}

/// Whether a message of the file is the independent-signals pseudo-message
/// (see [`is_placeholder`]).
pub fn placeholder(name: &str, id: RawId) -> (r: bool)
    ensures
        r == is_placeholder(name@, id),
{
    id == RawId::Extended(0) && str_eq(name, INDEPENDENT_SIGNALS)
}

/// The messages of the file that carry real frames, in the file's order:
/// all but the independent-signals pseudo-message.
pub open spec fn kept(msgs: Seq<RawMessage>) -> Seq<RawMessage>
    decreases msgs.len(),
{
    if msgs.len() == 0 {
        Seq::empty()
    } else if is_placeholder(msgs.last().name@, msgs.last().id) {
        kept(msgs.drop_last())
    } else {
        kept(msgs.drop_last()).push(msgs.last())
    }
}

/// Whether `built` reads every message of the file that carries a real frame,
/// in the file's order (see [`kept`]).
pub open spec fn built_from(built: Seq<MessageDef>, raw: RawDbc) -> bool {
    &&& built.len() == kept(raw.messages@).len()
    &&& forall|i: int| 0 <= i < built.len() ==> message_from(#[trigger] built[i], kept(raw.messages@)[i], raw)
}

/// What loading a parsed file gives: refused when it defines no messages
/// that carry a frame (see [`kept`]), else a database at `path` of those
/// messages, sorted by name (see [`Database::new`]).
pub open spec fn loaded(path: Seq<char>, raw: RawDbc, r: Result<Database, LoadError>) -> bool {
    match r {
        Ok(db) => {
            &&& kept(raw.messages@).len() > 0
            &&& db.wf()
            &&& db.path@ == path
            &&& exists|built: Seq<MessageDef>| #[trigger]
                built_from(built, raw) && db.messages@ == sorted_messages(built)
        },
        Err(e) => kept(raw.messages@).len() == 0 && e == LoadError::NoMessages,
    }
}

fn signal_def(s: &RawSignal, tables: &Vec<RawTable>, id: RawId) -> (d: SignalDef)
    ensures
        signal_from(d, *s, tables@, id),
{
    SignalDef {
        name: s.name.clone(),
        start: s.start as u16,
        len: s.size as u16,
        big_endian: s.big_endian,
        signed: s.signed,
        unit: s.unit.clone(),
        choices: choices(tables, id, s.name.as_str()),
        mux: mux_of(s.mux),
    }
}

fn message_def(r: &RawMessage, raw: &RawDbc) -> (m: MessageDef)
    ensures
        message_from(m, *r, *raw),
{
    let mut signals: Vec<SignalDef> = Vec::new();
    let mut j: usize = 0;
    while j < r.signals.len()
        invariant
            0 <= j <= r.signals@.len(),
            signals@.len() == j,
            forall|k: int| 0 <= k < j ==> signal_from(#[trigger] signals@[k], r.signals@[k], raw.tables@, r.id),
        decreases r.signals@.len() - j,
    {
        signals.push(signal_def(&r.signals[j], &raw.tables, r.id));
        j = j + 1;
    }
    let id = message_id(r.id).unwrap();
    MessageDef {
        id,
        name: r.name.clone(),
        len: r.size as usize,
        cycle_time_ms: cycle_time(&raw.attrs, r.id),
        signals,
    }
}

/// The database a parsed file gives (see [`loaded`]).
pub fn database_from(path: String, raw: &RawDbc) -> (r: Result<Database, LoadError>)
    ensures
        loaded(path@, *raw, r),
{
    let mut messages: Vec<MessageDef> = Vec::new();
    let mut i: usize = 0;
    while i < raw.messages.len()
        invariant
            0 <= i <= raw.messages@.len(),
            messages@.len() == kept(raw.messages@.take(i as int)).len(),
            forall|k: int|
                0 <= k < messages@.len() ==> message_from(
                    #[trigger] messages@[k],
                    kept(raw.messages@.take(i as int))[k],
                    *raw,
                ),
        decreases raw.messages@.len() - i,
    {
        let m = &raw.messages[i];
        proof {
            assert(raw.messages@.take(i + 1).drop_last() =~= raw.messages@.take(i as int));
            assert(raw.messages@.take(i + 1).last() == *m);
        }
        if !placeholder(m.name.as_str(), m.id) {
            messages.push(message_def(m, raw));
        }
        i = i + 1;
    }
    proof {
        assert(raw.messages@.take(i as int) =~= raw.messages@);
    }
    let ghost built = messages@;
    proof {
        assert(built_from(built, *raw));
    }
    let r = finish(path, messages);
    proof {
        if r is Ok {
            assert(built_from(built, *raw) && r.unwrap().messages@ == sorted_messages(built));
        }
    }
    r
}

/// What loading a DBC file's bytes gives: refused when its text (see
/// [`spec_decode_text`]) is not a DBC, else as [`loaded`] says.
pub open spec fn loaded_text(path: Seq<char>, bytes: Seq<u8>, r: Result<Database, LoadError>) -> bool {
    match parsed_dbc(spec_decode_text(bytes)) {
        None => r == Err::<Database, LoadError>(LoadError::NotDbc),
        Some(raw) => loaded(path, raw, r),
    }
}

/// Load a DBC file from its bytes (see [`loaded_text`]).
pub fn load_text(path: String, bytes: Vec<u8>) -> (r: Result<Database, LoadError>)
    ensures
        loaded_text(path@, bytes@, r),
{
    let text = decode_text(bytes);
    match parse_dbc(text.as_str()) {
        None => Err(LoadError::NotDbc),
        Some(raw) => database_from(path, &raw),
    }
}

} // verus!
