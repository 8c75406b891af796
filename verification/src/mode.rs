//! The modal controller's states.

use vstd::prelude::*;

verus! {

/// The editor's input modes. There is no terminal state: quitting ends the
/// surrounding event loop, not the state machine.
#[derive(Copy, Clone, Eq, PartialEq, Debug, Structural)]
pub enum Mode {
    Normal,
    Insert,
    Command,
    Search,
    View,
}

impl Default for Mode {
    /// A session starts in `Normal` mode.
    fn default() -> (r: Mode)
        ensures
            r == Mode::Normal,
    {
        Mode::Normal
    }
}

impl Mode {
    /// The label shown in the status line; command mode presents itself as a
    /// prompt.
    pub fn name(&self) -> (r: &'static str)
        ensures
            *self == Mode::Normal ==> r@ == "Normal"@,
            *self == Mode::Insert ==> r@ == "Insert"@,
            *self == Mode::Command ==> r@ == "Prompt"@,
            *self == Mode::Search ==> r@ == "Search"@,
            *self == Mode::View ==> r@ == "View"@,
    {
        match self {
            Mode::Normal => "Normal",
            Mode::Insert => "Insert",
            Mode::Command => "Prompt",
            Mode::Search => "Search",
            Mode::View => "View",
        }
    }
}

} // verus!
