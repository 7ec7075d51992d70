//! Keys → [`Action`]. The only file that knows which key does what.

use vstd::prelude::*;

use crate::app::action::{Action, WindowSpot};
use crate::app::{Mode, Pending};

verus! {

/// A key, as the terminal reports it.
#[derive(Clone, Copy, Debug, PartialEq, Eq, Structural)]
pub enum KeyCode {
    Char(char),
    Esc,
    Enter,
    Backspace,
    Tab,
    BackTab,
    Up,
    Down,
    PageUp,
    PageDown,
    Home,
    End,
    /// A function key, `F(2)` for F2.
    F(u8),
    /// Any key the tool gives no meaning.
    Other,
}

/// A key press and whether Control was held.
#[derive(Clone, Copy, Debug, PartialEq, Eq, Structural)]
pub struct KeyEvent {
    pub code: KeyCode,
    pub ctrl: bool,
}

/// The value of a decimal digit character.
pub open spec fn decimal_digit(c: char) -> Option<u32> {
    if '0' <= c <= '9' {
        Some((c as u32 - '0' as u32) as u32)
    } else {
        None
    }
}

/// What a key means in normal mode. Control chords first; then the second key
/// of `gg`, which abandons the sequence unless it is `g`; then count digits, so
/// `5` is never read as a command; then the plain keys.
pub open spec fn spec_normal(key: KeyEvent, pending: Pending) -> Action {
    if key.ctrl {
        match key.code {
            KeyCode::Char('c') => Action::Quit,
            KeyCode::Char('d') => Action::HalfPage(1),
            KeyCode::Char('u') => Action::HalfPage(-1i32),
            KeyCode::Char('f') => Action::Page(1),
            KeyCode::Char('b') => Action::Page(-1i32),
            _ => Action::Nothing,
        }
    } else if pending == Pending::G {
        match key.code {
            KeyCode::Char('g') => Action::Home,
            _ => Action::Nothing,
        }
    } else if key.code matches KeyCode::Char(c) && decimal_digit(c) is Some {
        Action::CountDigit(decimal_digit(key.code->Char_0)->0)
    } else {
        match key.code {
            KeyCode::Char('q') | KeyCode::Esc => Action::Quit,
            KeyCode::Tab => Action::NextPane,
            KeyCode::BackTab => Action::PrevPane,
            KeyCode::Up | KeyCode::Char('k') => Action::Move(-1i32),
            KeyCode::Down | KeyCode::Char('j') => Action::Move(1),
            KeyCode::PageUp => Action::Page(-1i32),
            KeyCode::PageDown => Action::Page(1),
            KeyCode::Home => Action::Home,
            KeyCode::Char('g') => Action::BeginG,
            KeyCode::End | KeyCode::Char('G') => Action::End,
            KeyCode::Char('H') => Action::Window(WindowSpot::Top),
            KeyCode::Char('M') => Action::Window(WindowSpot::Middle),
            KeyCode::Char('L') => Action::Window(WindowSpot::Bottom),
            // No horizontal cursor to move, so h/l take the pane-switch role.
            KeyCode::Char('l') => Action::NextPane,
            KeyCode::Char('h') => Action::PrevPane,
            KeyCode::Char('/') => Action::BeginFilter,
            KeyCode::Enter => Action::BeginEditSignal,
            KeyCode::Char('s') => Action::SendOnce,
            KeyCode::Char('p') => Action::ToggleCyclic,
            KeyCode::Char('x') => Action::StopAllCyclic,
            KeyCode::Char('r') => Action::BeginRawSend,
            KeyCode::Char('c') => Action::ClearRx,
            KeyCode::F(2) => Action::ToggleMouse,
            KeyCode::F(3) => Action::OpenDbcPicker,
            KeyCode::F(4) => Action::OpenInterfacePicker,
            KeyCode::F(5) => Action::ToggleCyclicPanel,
            KeyCode::F(6) => Action::ToggleRulesPanel,
            KeyCode::F(7) => Action::ReloadRules,
            KeyCode::Char('d') => Action::StopSelectedCyclic,
            KeyCode::Char('?') => Action::ToggleHelp,
            _ => Action::Nothing,
        }
    }
}

/// What a key means while a prompt is open: the keyboard belongs to it, so
/// typing `q` types a `q` rather than quitting.
pub open spec fn spec_prompt_key(key: KeyEvent) -> Action {
    match key.code {
        KeyCode::Esc => Action::Cancel,
        KeyCode::Enter => Action::PromptSubmit,
        KeyCode::Backspace => Action::PromptBackspace,
        KeyCode::Char(c) => if key.ctrl && (c == 'c' || c == 'd') {
            Action::Cancel
        } else {
            Action::PromptChar(c)
        },
        _ => Action::Nothing,
    }
}

/// What a key means while a picker is open.
pub open spec fn spec_picker_key(key: KeyEvent) -> Action {
    match key.code {
        KeyCode::Esc => Action::Cancel,
        KeyCode::Enter => Action::PickerAccept,
        KeyCode::Up | KeyCode::Char('k') => Action::PickerMove(-1i32),
        KeyCode::Down | KeyCode::Char('j') => Action::PickerMove(1),
        KeyCode::Char('q') => Action::Quit,
        KeyCode::Char('c') => if key.ctrl {
            Action::Quit
        } else {
            Action::Nothing
        },
        _ => Action::Nothing,
    }
}

/// What a key means in a mode. Help closes on any key; the detail overlay
/// reads keys as normal mode does, scrolling on motions and closing on the
/// rest.
pub open spec fn spec_map(key: KeyEvent, mode: &Mode, pending: Pending) -> Action {
    match *mode {
        Mode::Prompt(_) => spec_prompt_key(key),
        Mode::Picker(_) => spec_picker_key(key),
        Mode::Help => Action::Cancel,
        Mode::Normal => spec_normal(key, pending),
        Mode::Detail(_) => spec_normal(key, pending),
    }
}

pub fn map(key: KeyEvent, mode: &Mode, pending: Pending) -> (a: Action)
    ensures
        a == spec_map(key, mode, pending),
{
    match mode {
        Mode::Prompt(_) => match key.code {
            KeyCode::Esc => Action::Cancel,
            KeyCode::Enter => Action::PromptSubmit,
            KeyCode::Backspace => Action::PromptBackspace,
            KeyCode::Char(c) => if key.ctrl && (c == 'c' || c == 'd') {
                Action::Cancel
            } else {
                Action::PromptChar(c)
            },
            _ => Action::Nothing,
        },
        Mode::Picker(_) => match key.code {
            KeyCode::Esc => Action::Cancel,
            KeyCode::Enter => Action::PickerAccept,
            KeyCode::Up | KeyCode::Char('k') => Action::PickerMove(-1),
            KeyCode::Down | KeyCode::Char('j') => Action::PickerMove(1),
            KeyCode::Char('q') => Action::Quit,
            KeyCode::Char('c') => if key.ctrl {
                Action::Quit
            } else {
                Action::Nothing
            },
            _ => Action::Nothing,
        },
        Mode::Help => Action::Cancel,
        Mode::Normal => normal(key, pending),
        Mode::Detail(_) => normal(key, pending),
    }
}

fn digit_value(c: char) -> (d: Option<u32>)
    ensures
        d == decimal_digit(c),
{
    if c >= '0' && c <= '9' {
        Some(c as u32 - '0' as u32)
    } else {
        None
    }
}

pub fn normal(key: KeyEvent, pending: Pending) -> (a: Action)
    ensures
        a == spec_normal(key, pending),
{
    if key.ctrl {
        return match key.code {
            KeyCode::Char('c') => Action::Quit,
            KeyCode::Char('d') => Action::HalfPage(1),
            KeyCode::Char('u') => Action::HalfPage(-1),
            KeyCode::Char('f') => Action::Page(1),
            KeyCode::Char('b') => Action::Page(-1),
            _ => Action::Nothing,
        };
    }
    // Waiting on the second key of `gg`. Anything else abandons the sequence,
    // which is also how the caller learns to clear the pending state.
    if pending == Pending::G {
        return match key.code {
            KeyCode::Char('g') => Action::Home,
            _ => Action::Nothing,
        };
    }
    // Count prefixes come first so `5` is never read as a command. A leading
    // zero is dropped by the reducer, leaving `0` free of meaning here.
    if let KeyCode::Char(c) = key.code {
        if let Some(d) = digit_value(c) {
            return Action::CountDigit(d);
        }
    }
    match key.code {
        KeyCode::Char('q') | KeyCode::Esc => Action::Quit,
        KeyCode::Tab => Action::NextPane,
        KeyCode::BackTab => Action::PrevPane,
        KeyCode::Up | KeyCode::Char('k') => Action::Move(-1),
        KeyCode::Down | KeyCode::Char('j') => Action::Move(1),
        KeyCode::PageUp => Action::Page(-1),
        KeyCode::PageDown => Action::Page(1),
        KeyCode::Home => Action::Home,
        KeyCode::Char('g') => Action::BeginG,
        KeyCode::End | KeyCode::Char('G') => Action::End,
        KeyCode::Char('H') => Action::Window(WindowSpot::Top),
        KeyCode::Char('M') => Action::Window(WindowSpot::Middle),
        KeyCode::Char('L') => Action::Window(WindowSpot::Bottom),
        KeyCode::Char('l') => Action::NextPane,
        KeyCode::Char('h') => Action::PrevPane,
        KeyCode::Char('/') => Action::BeginFilter,
        KeyCode::Enter => Action::BeginEditSignal,
        KeyCode::Char('s') => Action::SendOnce,
        KeyCode::Char('p') => Action::ToggleCyclic,
        KeyCode::Char('x') => Action::StopAllCyclic,
        KeyCode::Char('r') => Action::BeginRawSend,
        KeyCode::Char('c') => Action::ClearRx,
        KeyCode::F(2) => Action::ToggleMouse,
        KeyCode::F(3) => Action::OpenDbcPicker,
        KeyCode::F(4) => Action::OpenInterfacePicker,
        KeyCode::F(5) => Action::ToggleCyclicPanel,
        KeyCode::F(6) => Action::ToggleRulesPanel,
        KeyCode::F(7) => Action::ReloadRules,
        KeyCode::Char('d') => Action::StopSelectedCyclic,
        KeyCode::Char('?') => Action::ToggleHelp,
        _ => Action::Nothing,
    }
}

/// A prompt owns the keyboard: no key typed into it quits, switches pane or
/// sends anything; every key types itself, edits, submits or cancels.
pub proof fn law_a_prompt_owns_the_keyboard(key: KeyEvent)
    ensures
        spec_prompt_key(key) is PromptChar || spec_prompt_key(key) is PromptBackspace
            || spec_prompt_key(key) is PromptSubmit || spec_prompt_key(key) is Cancel
            || spec_prompt_key(key) is Nothing,
        !key.ctrl ==> (key.code matches KeyCode::Char(c) ==> spec_prompt_key(key) == Action::PromptChar(c)),
{
}

/// Digits are counts before they are commands, and a count digit is 0 to 9.
pub proof fn law_digits_are_counts(c: char, pending: Pending)
    requires
        '0' <= c <= '9',
        pending == Pending::Nothing,
    ensures
        spec_normal(KeyEvent { code: KeyCode::Char(c), ctrl: false }, pending) == Action::CountDigit(
            (c as u32 - '0' as u32) as u32,
        ),
        (c as u32 - '0' as u32) <= 9,
{
}

} // verus!
