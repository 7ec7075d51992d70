//! The single-line prompt used for filters, values, periods and raw frames:
//! what a submitted line says, and how a raw frame is read from it.

use vstd::prelude::*;

use super::action::Action;
use super::nav::Nav;
use super::{Prompt, PromptKind, Scroll};
use crate::canid::{self, Id};
use crate::text::{chars_of, parse_radix_within, radix_within, string_of};
use crate::transport::Payload;

verus! {

/// Whether `c` is white space as Unicode defines it (the `White_Space`
/// property, which `char::is_whitespace` tests): the ASCII tab, line feed,
/// vertical tab, form feed, carriage return and space, next line, no-break
/// space, Ogham space mark, the spaces from en quad to hair space, the line
/// and paragraph separators, narrow no-break space, medium mathematical space
/// and ideographic space.
pub open spec fn unicode_white_space(c: char) -> bool {
    ||| '\u{9}' <= c <= '\u{d}'
    ||| c == ' '
    ||| c == '\u{85}'
    ||| c == '\u{a0}'
    ||| c == '\u{1680}'
    ||| '\u{2000}' <= c <= '\u{200a}'
    ||| c == '\u{2028}'
    ||| c == '\u{2029}'
    ||| c == '\u{202f}'
    ||| c == '\u{205f}'
    ||| c == '\u{3000}'
}

/// Whether `c` is white space (see [`unicode_white_space`]).
fn is_whitespace(c: char) -> (r: bool)
    ensures
        r == unicode_white_space(c),
{
    ('\u{9}' <= c && c <= '\u{d}') || c == ' ' || c == '\u{85}' || c == '\u{a0}' || c == '\u{1680}' || ('\u{2000}'
        <= c && c <= '\u{200a}') || c == '\u{2028}' || c == '\u{2029}' || c == '\u{202f}' || c == '\u{205f}' || c
        == '\u{3000}'
}

/// The text with leading and trailing white space removed.
pub open spec fn trimmed(s: Seq<char>) -> Seq<char>
    decreases s.len(),
{
    if s.len() > 0 && unicode_white_space(s[0]) {
        trimmed(s.drop_first())
    } else if s.len() > 0 && unicode_white_space(s.last()) {
        trimmed(s.drop_last())
    } else {
        s
    }
}

/// What a submitted prompt line means: the typed text without surrounding
/// white space or, when that is empty, the prompt's default (or nothing).
pub open spec fn spec_submitted(buffer: Seq<char>, default: Option<Seq<char>>) -> Seq<char> {
    if trimmed(buffer).len() == 0 {
        match default {
            Some(d) => d,
            None => Seq::empty(),
        }
    } else {
        trimmed(buffer)
    }
}

fn trim_chars(s: &Vec<char>) -> (r: (usize, usize))
    ensures
        r.0 <= r.1 <= s@.len(),
        s@.subrange(r.0 as int, r.1 as int) == trimmed(s@),
{
    let mut from: usize = 0;
    let mut to: usize = s.len();
    proof {
        assert(s@.subrange(0, s@.len() as int) =~= s@);
    }
    while from < to && is_whitespace(s[from])
        invariant
            0 <= from <= to == s@.len(),
            trimmed(s@.subrange(from as int, to as int)) == trimmed(s@),
        decreases to - from,
    {
        proof {
            let t = s@.subrange(from as int, to as int);
            assert(t.drop_first() =~= s@.subrange(from + 1, to as int));
        }
        from = from + 1;
    }
    while from < to && is_whitespace(s[to - 1])
        invariant
            0 <= from <= to <= s@.len(),
            trimmed(s@.subrange(from as int, to as int)) == trimmed(s@),
            from < to ==> !unicode_white_space(s@[from as int]),
        decreases to - from,
    {
        proof {
            let t = s@.subrange(from as int, to as int);
            assert(t.drop_last() =~= s@.subrange(from as int, to - 1));
            assert(t[0] == s@[from as int]);
        }
        to = to - 1;
    }
    proof {
        let t = s@.subrange(from as int, to as int);
        if from < to {
            assert(t[0] == s@[from as int]);
            assert(t.last() == s@[to - 1]);
        }
        assert(trimmed(t) == t);
    }
    (from, to)
}

/// The text without leading and trailing white space.
pub fn trim_text(s: &str) -> (r: String)
    ensures
        r@ == trimmed(s@),
{
    let cs = chars_of(s);
    let (from, to) = trim_chars(&cs);
    let mut out: Vec<char> = Vec::new();
    let mut i = from;
    while i < to
        invariant
            from <= i <= to <= cs@.len(),
            out@ == cs@.subrange(from as int, i as int),
        decreases to - i,
    {
        out.push(cs[i]);
        proof {
            assert(cs@.subrange(from as int, i + 1) =~= cs@.subrange(from as int, i as int).push(cs@[i as int]));
        }
        i = i + 1;
    }
    string_of(&out)
}

/// The text a submitted prompt stands for (see [`spec_submitted`]).
pub fn submitted_text(buffer: &str, default: &Option<String>) -> (r: String)
    ensures
        r@ == spec_submitted(buffer@, match default {
            Some(d) => Some(d@),
            None => None,
        }),
{
    let t = trim_text(buffer);
    if chars_of(t.as_str()).len() == 0 {
        return match default {
            Some(d) => d.clone(),
            None => String::new(),
        };
    }
    t
}

/// Whether a character separates the words of a raw frame: a comma or white
/// space.
pub open spec fn separator(c: char) -> bool {
    c == ',' || unicode_white_space(c)
}

/// The word under way, as a list of one word, or none when it is empty.
pub open spec fn flush(cur: Seq<char>) -> Seq<Seq<char>> {
    if cur.len() == 0 {
        Seq::empty()
    } else {
        seq![cur]
    }
}

/// The words of `s`, continuing a word `cur` already under way; separators
/// split them and empty words are dropped.
pub open spec fn words_from(s: Seq<char>, cur: Seq<char>) -> Seq<Seq<char>>
    decreases s.len(),
{
    if s.len() == 0 {
        flush(cur)
    } else if separator(s[0]) {
        flush(cur) + words_from(s.drop_first(), Seq::empty())
    } else {
        words_from(s.drop_first(), cur.push(s[0]))
    }
}

/// The non-empty words of `s` between commas and white space.
pub open spec fn words(s: Seq<char>) -> Seq<Seq<char>> {
    words_from(s, Seq::empty())
}

/// The text after any number of leading `0x`.
pub open spec fn strip_0x(s: Seq<char>) -> Seq<char>
    decreases s.len(),
{
    if s.len() >= 2 && s[0] == '0' && s[1] == 'x' {
        strip_0x(s.subrange(2, s.len() as int))
    } else {
        s
    }
}

/// Why a raw frame was refused.
#[derive(Clone, Debug)]
pub enum RawSendError {
    /// The first word is not a hex identifier.
    BadId(String),
    /// A data word is not a hex byte.
    BadByte(String),
    /// More than eight data bytes.
    TooLong,
}

/// The first data word, from position `j` on, that is not a hex byte.
pub open spec fn first_bad_byte(w: Seq<Seq<char>>, j: int) -> Option<int>
    decreases w.len() - j,
{
    if j >= w.len() || j < 1 {
        None
    } else if radix_within(w[j], 16, 255) is None {
        Some(j)
    } else {
        first_bad_byte(w, j + 1)
    }
}

/// A refusal as (kind, the word at fault): 0 for a bad identifier, 1 for a
/// bad byte, 2 for too many bytes (with no word).
pub open spec fn refusal(e: RawSendError) -> (int, Seq<char>) {
    match e {
        RawSendError::BadId(w) => (0, w@),
        RawSendError::BadByte(w) => (1, w@),
        RawSendError::TooLong => (2, Seq::empty()),
    }
}

/// What a raw-send line asks for: nothing when it has no words; otherwise the
/// first word is the identifier in hex (after any `0x`), extended when above
/// 0x7FF, and each further word one data byte in hex, at most eight of them.
/// As (identifier value, extended, data), or the refusal (see [`refusal`]).
pub open spec fn spec_raw_send(text: Seq<char>) -> Option<Result<(u32, bool, Seq<u8>), (int, Seq<char>)>> {
    let w = words(text);
    if w.len() == 0 {
        None
    } else {
        match radix_within(strip_0x(w[0]), 16, u32::MAX as nat) {
            None => Some(Err((0, w[0]))),
            Some(raw) => match first_bad_byte(w, 1) {
                Some(k) => Some(Err((1, w[k]))),
                None => if w.len() - 1 > 8 {
                    Some(Err((2, Seq::empty())))
                } else {
                    let made = canid::spec_make(raw as u32, raw > 0x7FF);
                    Some(Ok((made.0, made.1, Seq::new((w.len() - 1) as nat, |i: int| radix_within(w[i + 1], 16, 255)->0 as u8))))
                },
            },
        }
    }
}

proof fn lemma_words_step(s: Seq<char>, i: int, cur: Seq<char>)
    requires
        0 <= i < s.len(),
    ensures
        words_from(s.subrange(i, s.len() as int), cur) == if separator(s[i]) {
            flush(cur) + words_from(s.subrange(i + 1, s.len() as int), Seq::empty())
        } else {
            words_from(s.subrange(i + 1, s.len() as int), cur.push(s[i]))
        },
{
    let t = s.subrange(i, s.len() as int);
    assert(t.drop_first() =~= s.subrange(i + 1, s.len() as int));
    assert(t[0] == s[i]);
}

/// The words of a line, each as its characters (see [`words`]).
fn split_words(cs: &Vec<char>) -> (w: Vec<Vec<char>>)
    ensures
        w@.len() == words(cs@).len(),
        forall|j: int| 0 <= j < w@.len() ==> (#[trigger] w@[j])@ == words(cs@)[j],
{
    let ghost all = words(cs@);
    let ghost mut done: Seq<Seq<char>> = Seq::empty();
    let mut out: Vec<Vec<char>> = Vec::new();
    let mut cur: Vec<char> = Vec::new();
    let mut i: usize = 0;
    proof {
        assert(cs@.subrange(0, cs@.len() as int) =~= cs@);
        assert(done + words_from(cs@, cur@) =~= all);
    }
    while i < cs.len()
        invariant
            0 <= i <= cs@.len(),
            all == words(cs@),
            done + words_from(cs@.subrange(i as int, cs@.len() as int), cur@) == all,
            out@.len() == done.len(),
            forall|j: int| 0 <= j < out@.len() ==> (#[trigger] out@[j])@ == done[j],
        decreases cs@.len() - i,
    {
        proof {
            lemma_words_step(cs@, i as int, cur@);
        }
        let ghost d0 = done;
        let ghost c0 = cur@;
        let c = cs[i];
        if c == ',' || is_whitespace(c) {
            if cur.len() > 0 {
                proof {
                    done = done.push(cur@);
                    assert(flush(cur@) == seq![cur@]);
                }
                out.push(cur);
                cur = Vec::new();
            }
            proof {
                let rest = words_from(cs@.subrange(i + 1, cs@.len() as int), Seq::<char>::empty());
                assert(done =~= d0 + flush(c0));
                assert(cur@ =~= Seq::<char>::empty());
                assert((d0 + flush(c0)) + rest =~= d0 + (flush(c0) + rest));
            }
        } else {
            cur.push(c);
        }
        i = i + 1;
    }
    proof {
        assert(cs@.subrange(i as int, cs@.len() as int) =~= Seq::<char>::empty());
    }
    if cur.len() > 0 {
        proof {
            done = done.push(cur@);
        }
        out.push(cur);
    }
    proof {
        assert(done =~= all);
    }
    out
}

/// Where the text after any leading `0x` starts.
fn skip_0x(s: &Vec<char>) -> (from: usize)
    ensures
        from <= s@.len(),
        s@.subrange(from as int, s@.len() as int) == strip_0x(s@),
{
    let mut from: usize = 0;
    proof {
        assert(s@.subrange(0, s@.len() as int) =~= s@);
    }
    while s.len() >= 2 && from <= s.len() - 2 && s[from] == '0' && s[from + 1] == 'x'
        invariant
            from <= s@.len(),
            strip_0x(s@.subrange(from as int, s@.len() as int)) == strip_0x(s@),
        decreases s@.len() - from,
    {
        proof {
            let t = s@.subrange(from as int, s@.len() as int);
            assert(t.subrange(2, t.len() as int) =~= s@.subrange(from + 2, s@.len() as int));
        }
        from = from + 2;
    }
    proof {
        let t = s@.subrange(from as int, s@.len() as int);
        if t.len() >= 2 {
            assert(t[0] == s@[from as int] && t[1] == s@[from + 1]);
        }
    }
    from
}

/// Read a raw-send line (see [`spec_raw_send`]).
pub fn parse_raw_send(text: &str) -> (r: Option<Result<(Id, Payload), RawSendError>>)
    ensures
        match spec_raw_send(text@) {
            None => r is None,
            Some(Err(e)) => r matches Some(Err(got)) && refusal(got) == e,
            Some(Ok((raw, ext, data))) => r matches Some(Ok((id, p))) && id.value() == raw && id.is_ext()
                == ext && p@ == data,
        },
        ({
            let w = words(text@);
            w.len() >= 1 && w.len() - 1 <= 8 && radix_within(strip_0x(w[0]), 16, u32::MAX as nat) is Some
                && (forall|j: int| 1 <= j < w.len() ==> radix_within(#[trigger] w[j], 16, 255) is Some)
                ==> (r matches Some(Ok((_, p))) && p@.len() == w.len() - 1)
        }),
        r matches Some(Err(RawSendError::TooLong)) ==> words(text@).len() - 1 > 8,
{
    proof {
        law_a_frame_carries_up_to_eight_bytes(text@);
    }
    let cs = chars_of(text);
    let w = split_words(&cs);
    if w.len() == 0 {
        return None;
    }
    let id_word = &w[0];
    let from = skip_0x(id_word);
    let raw = match parse_radix_within(id_word, from, 16, u32::MAX as u64) {
        Some(v) => v as u32,
        None => {
            return Some(Err(RawSendError::BadId(string_of(id_word))));
        },
    };
    let ghost words_v = words(cs@);
    proof {
        assert(id_word@ == words_v[0]);
    }
    let mut data: Vec<u8> = Vec::new();
    let mut j: usize = 1;
    while j < w.len()
        invariant
            1 <= j <= w@.len(),
            w@.len() == words_v.len(),
            words_v == words(cs@),
            cs@ == text@,
            radix_within(strip_0x(words_v[0]), 16, u32::MAX as nat) == Some(raw as nat),
            forall|k: int| 0 <= k < w@.len() ==> (#[trigger] w@[k])@ == words_v[k],
            first_bad_byte(words_v, 1) == first_bad_byte(words_v, j as int),
            data@.len() == j - 1,
            forall|k: int| 1 <= k < j ==> radix_within(#[trigger] words_v[k], 16, 255) is Some && data@[k - 1]
                == radix_within(words_v[k], 16, 255)->0 as u8,
        decreases w@.len() - j,
    {
        let word = &w[j];
        proof {
            assert(word@.subrange(0, word@.len() as int) =~= word@);
        }
        match parse_radix_within(word, 0, 16, 255) {
            Some(b) => {
                data.push(b as u8);
            },
            None => {
                proof {
                    assert(word@ == words_v[j as int]);
                    assert(first_bad_byte(words_v, j as int) == Some(j as int));
                }
                return Some(Err(RawSendError::BadByte(string_of(word))));
            },
        }
        j = j + 1;
    }
    if data.len() > 8 {
        return Some(Err(RawSendError::TooLong));
    }
    let id = match canid::make(raw, raw > 0x7FF) {
        Some(id) => id,
        None => {
            return Some(Err(RawSendError::BadId(string_of(id_word))));
        },
    };
    let p = Payload::new(data.as_slice());
    proof {
        assert(data@ =~= Seq::new((words_v.len() - 1) as nat, |i: int| radix_within(words_v[i + 1], 16, 255)->0 as u8));
    }
    Some(Ok((id, p)))
}


/// The text typed into a prompt after one more character.
fn pushed(s: &String, c: char) -> (r: String)
    ensures
        r@ == s@.push(c),
{
    let mut v = chars_of(s.as_str());
    v.push(c);
    string_of(&v)
}

/// The text typed into a prompt after a backspace: the last character gone,
/// if there was one.
pub open spec fn backspaced(s: Seq<char>) -> Seq<char> {
    if s.len() > 0 {
        s.drop_last()
    } else {
        s
    }
}

fn popped(s: &String) -> (r: String)
    ensures
        r@ == backspaced(s@),
{
    let mut v = chars_of(s.as_str());
    if v.len() > 0 {
        v.pop();
    }
    string_of(&v)
}

/// What an action does to an open prompt.
#[derive(Clone, Debug)]
pub enum PromptStep {
    Nothing,
    /// The typed text changed; a filter prompt applies it at once.
    Edited,
    /// Closed without submitting.
    Cancelled { was_filter: bool },
    /// Closed with the text it stands for (see [`spec_submitted`]).
    Submitted { kind: PromptKind, text: String },
}

pub open spec fn default_view(d: Option<String>) -> Option<Seq<char>> {
    match d {
        Some(t) => Some(t@),
        None => None,
    }
}

/// Apply an action to an open prompt: a character is typed after what is
/// there (a default is never part of the text, so typing never appends to
/// it), backspace takes the last one off, `esc` cancels and `enter` submits.
pub fn prompt_step(prompt: &mut Prompt, action: &Action) -> (s: PromptStep)
    ensures
        final(prompt).kind == old(prompt).kind,
        final(prompt).label == old(prompt).label,
        final(prompt).default == old(prompt).default,
        match *action {
            Action::PromptChar(c) => s is Edited && final(prompt).buffer@ == old(prompt).buffer@.push(c),
            Action::PromptBackspace => s is Edited && final(prompt).buffer@ == backspaced(old(prompt).buffer@),
            Action::Cancel => (s matches PromptStep::Cancelled { was_filter } && was_filter == (old(prompt).kind
                == PromptKind::Filter)) && final(prompt).buffer == old(prompt).buffer,
            Action::PromptSubmit => (s matches PromptStep::Submitted { kind, text } && kind == old(prompt).kind
                && text@ == spec_submitted(old(prompt).buffer@, default_view(old(prompt).default)))
                && final(prompt).buffer == old(prompt).buffer,
            _ => s is Nothing && final(prompt).buffer == old(prompt).buffer,
        },
{
    match action {
        Action::PromptChar(c) => {
            prompt.buffer = pushed(&prompt.buffer, *c);
            PromptStep::Edited
        },
        Action::PromptBackspace => {
            prompt.buffer = popped(&prompt.buffer);
            PromptStep::Edited
        },
        Action::Cancel => PromptStep::Cancelled { was_filter: prompt.kind == PromptKind::Filter },
        Action::PromptSubmit => {
            let text = submitted_text(prompt.buffer.as_str(), &prompt.default);
            PromptStep::Submitted { kind: prompt.kind, text }
        },
        _ => PromptStep::Nothing,
    }
}

/// The message filter, and what a `/` replaced so that `esc` can put it back.
pub struct FilterState {
    pub filter: String,
    pub before: String,
}

impl View for FilterState {
    type V = (Seq<char>, Seq<char>);

    open spec fn view(&self) -> (Seq<char>, Seq<char>) {
        (self.filter@, self.before@)
    }
}

/// `/`: the filter starts empty, and the old one is kept.
pub open spec fn begun(f: (Seq<char>, Seq<char>)) -> (Seq<char>, Seq<char>) {
    (Seq::empty(), f.0)
}

/// Typing in the filter prompt: the filter is what has been typed.
pub open spec fn typed(f: (Seq<char>, Seq<char>), text: Seq<char>) -> (Seq<char>, Seq<char>) {
    (text, f.1)
}

/// `esc`: the filter the `/` replaced comes back.
pub open spec fn cancelled(f: (Seq<char>, Seq<char>)) -> (Seq<char>, Seq<char>) {
    (f.1, Seq::empty())
}

/// The filter after typing each of `texts` in turn.
pub open spec fn typed_all(f: (Seq<char>, Seq<char>), texts: Seq<Seq<char>>) -> (Seq<char>, Seq<char>)
    decreases texts.len(),
{
    if texts.len() == 0 {
        f
    } else {
        typed(typed_all(f, texts.drop_last()), texts.last())
    }
}

impl FilterState {
    pub fn new() -> (f: Self)
        ensures
            f@ == (Seq::<char>::empty(), Seq::<char>::empty()),
    {
        FilterState { filter: String::new(), before: String::new() }
    }

    /// `/` (see [`begun`]).
    pub fn begin(&mut self)
        ensures
            final(self)@ == begun(old(self)@),
    {
        let mut old = String::new();
        std::mem::swap(&mut self.filter, &mut old);
        self.before = old;
    }

    /// A keystroke in the filter prompt (see [`typed`]).
    pub fn live(&mut self, text: &str)
        ensures
            final(self)@ == typed(old(self)@, text@),
    {
        self.filter = String::from_str(text);
    }

    /// `esc` in the filter prompt (see [`cancelled`]).
    pub fn cancel(&mut self)
        ensures
            final(self)@ == cancelled(old(self)@),
    {
        let mut old = String::new();
        std::mem::swap(&mut self.before, &mut old);
        self.filter = old;
    }

    /// `enter` in the filter prompt: the filter is the submitted text.
    pub fn submit(&mut self, text: String)
        ensures
            final(self)@ == typed(old(self)@, text@),
    {
        self.filter = text;
    }
}

/// What happens to the message filter.
pub enum FilterEvent {
    /// `/`.
    Begin,
    /// A keystroke in the filter prompt, leaving this text typed.
    Typed(String),
    /// `esc` in the filter prompt.
    Cancelled,
    /// `enter` in the filter prompt, with this text.
    Submitted(String),
}

/// The filter after an event (see [`begun`], [`typed`], [`cancelled`]).
pub open spec fn filtered(f: (Seq<char>, Seq<char>), e: FilterEvent) -> (Seq<char>, Seq<char>) {
    match e {
        FilterEvent::Begin => begun(f),
        FilterEvent::Typed(t) => typed(f, t@),
        FilterEvent::Cancelled => cancelled(f),
        FilterEvent::Submitted(t) => typed(f, t@),
    }
}

/// Apply a filter event: the filter changes as [`filtered`] says, and the
/// message cursor goes back to the first message the new filter shows; while
/// the prompt is open (`/` and typing) the message list also scrolls back to
/// follow the cursor from the top. Nothing else about navigation changes.
pub fn filter_event(filter: &mut FilterState, nav: &mut Nav, e: FilterEvent)
    ensures
        final(filter)@ == filtered(old(filter)@, e),
        *final(nav) == (Nav {
            msg_index: 0,
            msg_scroll: match e {
                FilterEvent::Begin | FilterEvent::Typed(_) => Scroll { offset: 0, follow: true },
                _ => old(nav).msg_scroll,
            },
            ..*old(nav)
        }),
{
    match e {
        FilterEvent::Begin => {
            filter.begin();
            nav.msg_scroll = Scroll { offset: 0, follow: true };
        },
        FilterEvent::Typed(t) => {
            filter.live(t.as_str());
            nav.msg_scroll = Scroll { offset: 0, follow: true };
        },
        FilterEvent::Cancelled => filter.cancel(),
        FilterEvent::Submitted(t) => filter.submit(t),
    }
    nav.msg_index = 0;
}

/// A `/` is never destructive: whatever is typed after it, `esc` puts back
/// the filter that was there before.
pub proof fn law_escape_restores_the_filter(f: (Seq<char>, Seq<char>), texts: Seq<Seq<char>>)
    ensures
        cancelled(typed_all(begun(f), texts)).0 == f.0,
    decreases texts.len(),
{
    lemma_typing_keeps_what_was_replaced(begun(f), texts);
}

proof fn lemma_typing_keeps_what_was_replaced(f: (Seq<char>, Seq<char>), texts: Seq<Seq<char>>)
    ensures
        typed_all(f, texts).1 == f.1,
    decreases texts.len(),
{
    if texts.len() > 0 {
        lemma_typing_keeps_what_was_replaced(f, texts.drop_last());
    }
}

/// A default is a placeholder, never part of the text: with nothing typed a
/// submitted prompt stands for its default, and with anything typed it
/// stands for exactly what was typed (less surrounding white space), never
/// the default with the typing appended.
pub proof fn law_defaults_are_placeholders(typed: Seq<char>, default: Seq<char>)
    ensures
        spec_submitted(Seq::empty(), Some(default)) == default,
        trimmed(typed).len() > 0 ==> spec_submitted(typed, Some(default)) == trimmed(typed),
{
    assert(trimmed(Seq::<char>::empty()) == Seq::<char>::empty());
}

proof fn lemma_no_bad_byte(w: Seq<Seq<char>>, k: int)
    requires
        1 <= k,
        forall|j: int| k <= j < w.len() ==> radix_within(#[trigger] w[j], 16, 255) is Some,
    ensures
        first_bad_byte(w, k) is None,
    decreases w.len() - k,
{
    if k < w.len() {
        lemma_no_bad_byte(w, k + 1);
    }
}

/// A raw frame carries up to eight data bytes, as a classic CAN frame does: a
/// line whose identifier word is hex and whose data words are from none to
/// eight hex bytes is sent with exactly those bytes, in order; it is refused
/// as too long only when it has more than eight data words, and then always
/// (when every word is good).
pub proof fn law_a_frame_carries_up_to_eight_bytes(text: Seq<char>)
    ensures
        ({
            let w = words(text);
            w.len() >= 1 && radix_within(strip_0x(w[0]), 16, u32::MAX as nat) is Some
                && (forall|j: int| 1 <= j < w.len() ==> radix_within(#[trigger] w[j], 16, 255) is Some)
                ==> if w.len() - 1 <= 8 {
                    (spec_raw_send(text) matches Some(Ok((_, _, data))) && data.len() == w.len() - 1
                        && forall|i: int| 0 <= i < data.len() ==> data[i] == radix_within(#[trigger] w[i + 1], 16, 255)->0)
                } else {
                    spec_raw_send(text) == Some(Err::<(u32, bool, Seq<u8>), (int, Seq<char>)>((2, Seq::empty())))
                }
        }),
        (spec_raw_send(text) matches Some(Err((k, _))) && k == 2) ==> words(text).len() - 1 > 8,
{
    let w = words(text);
    if w.len() >= 1 && radix_within(strip_0x(w[0]), 16, u32::MAX as nat) is Some
        && (forall|j: int| 1 <= j < w.len() ==> radix_within(#[trigger] w[j], 16, 255) is Some) {
        lemma_no_bad_byte(w, 1);
        if w.len() - 1 <= 8 {
            let data = match spec_raw_send(text) {
                Some(Ok((_, _, d))) => d,
                _ => Seq::empty(),
            };
            assert forall|i: int| 0 <= i < data.len() implies data[i] == radix_within(
                #[trigger] w[i + 1],
                16,
                255,
            )->0 by {
                assert(radix_within(w[i + 1], 16, 255) is Some);
            }
        }
    }
}

} // verus!
