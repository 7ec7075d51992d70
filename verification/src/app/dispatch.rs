//! What an action asks for in the normal mode, once the cursor and pane
//! movements have taken what is theirs.

use vstd::prelude::*;

use super::action::{Action, Pane};

verus! {

/// Something the screen has to do for an action.
#[derive(Clone, Copy, Debug, PartialEq, Eq, Structural)]
pub enum Intent {
    Nothing,
    Quit,
    /// Start typing a message filter.
    BeginFilter,
    /// Show the row under the cursor in full.
    Inspect,
    /// Switch the rule under the cursor on or off.
    ToggleRule,
    /// Put the message cursor on the periodic send under the cursor.
    JumpToCyclic,
    /// Ask for a new value of the signal under the cursor.
    EditSignal,
    StopSelectedCyclic,
    ReloadRules,
    SendOnce,
    ToggleCyclic,
    StopAllCyclic,
    BeginRawSend,
    ClearRx,
    OpenInterfacePicker,
    OpenDbcPicker,
    ToggleMouse,
    ShowHelp,
}

/// What `action` asks for with `pane` focused. Enter acts on what the focused
/// pane lists: a received row is shown in full, a rule is switched, a
/// periodic send jumps to its message, and a message or signal is edited.
pub open spec fn spec_intent(action: Action, pane: Pane) -> Intent {
    match action {
        Action::Quit => Intent::Quit,
        Action::BeginFilter => Intent::BeginFilter,
        Action::Inspect => Intent::Inspect,
        Action::BeginEditSignal => match pane {
            Pane::Rx => Intent::Inspect,
            Pane::Rules => Intent::ToggleRule,
            Pane::Cyclic => Intent::JumpToCyclic,
            _ => Intent::EditSignal,
        },
        Action::StopSelectedCyclic => Intent::StopSelectedCyclic,
        Action::ReloadRules => Intent::ReloadRules,
        Action::SendOnce => Intent::SendOnce,
        Action::ToggleCyclic => Intent::ToggleCyclic,
        Action::StopAllCyclic => Intent::StopAllCyclic,
        Action::BeginRawSend => Intent::BeginRawSend,
        Action::ClearRx => Intent::ClearRx,
        Action::OpenInterfacePicker => Intent::OpenInterfacePicker,
        Action::OpenDbcPicker => Intent::OpenDbcPicker,
        Action::ToggleMouse => Intent::ToggleMouse,
        Action::ToggleHelp => Intent::ShowHelp,
        _ => Intent::Nothing,
    }
}

/// What an action asks for in the normal mode (see [`spec_intent`]).
pub fn intent(action: &Action, pane: Pane) -> (i: Intent)
    ensures
        i == spec_intent(*action, pane),
{
    match action {
        Action::Quit => Intent::Quit,
        Action::BeginFilter => Intent::BeginFilter,
        Action::Inspect => Intent::Inspect,
        Action::BeginEditSignal => match pane {
            Pane::Rx => Intent::Inspect,
            Pane::Rules => Intent::ToggleRule,
            Pane::Cyclic => Intent::JumpToCyclic,
            _ => Intent::EditSignal,
        },
        Action::StopSelectedCyclic => Intent::StopSelectedCyclic,
        Action::ReloadRules => Intent::ReloadRules,
        Action::SendOnce => Intent::SendOnce,
        Action::ToggleCyclic => Intent::ToggleCyclic,
        Action::StopAllCyclic => Intent::StopAllCyclic,
        Action::BeginRawSend => Intent::BeginRawSend,
        Action::ClearRx => Intent::ClearRx,
        Action::OpenInterfacePicker => Intent::OpenInterfacePicker,
        Action::OpenDbcPicker => Intent::OpenDbcPicker,
        Action::ToggleMouse => Intent::ToggleMouse,
        Action::ToggleHelp => Intent::ShowHelp,
        _ => Intent::Nothing,
    }
}

/// Whether an action closes the help screen: any that means something.
pub fn closes_help(action: &Action) -> (r: bool)
    ensures
        r == !(*action is Nothing),
{
    !matches!(action, Action::Nothing)
}

} // verus!
