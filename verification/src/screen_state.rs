//! The terminal screen state as a scoped protocol: the exact command
//! sequences that enter the editor's screen state (alternate screen, raw
//! mode, hidden cursor) and that restore the terminal on every exit path.
//! The guard that performs them against the real terminal lives outside the
//! library; release must run the leave sequence unconditionally.

use vstd::prelude::*;

verus! {

/// One terminal-mode action for the screen-state guard to perform.
#[derive(Clone, Copy, PartialEq, Eq, Structural, Debug)]
pub enum ScreenCommand {
    /// Switch to the alternate screen buffer.
    EnterAlternateScreen,
    /// Put the terminal into raw mode.
    EnableRawMode,
    /// Hide the terminal's own cursor.
    HideCursor,
    /// Show the terminal's own cursor again.
    ShowCursor,
    /// Leave raw mode.
    DisableRawMode,
    /// Switch back from the alternate screen buffer.
    LeaveAlternateScreen,
}

/// The screen-state protocol: which actions, in which order, enter and
/// leave the editor's full-screen mode.
pub struct ScreenState;

impl ScreenState {
    /// The actions that enter the screen state, in order: alternate
    /// screen, then raw mode, then hide the cursor.
    pub fn enter_commands() -> (cmds: Vec<ScreenCommand>)
        ensures
            cmds@ == seq![
                ScreenCommand::EnterAlternateScreen,
                ScreenCommand::EnableRawMode,
                ScreenCommand::HideCursor,
            ],
    {
        let mut cmds: Vec<ScreenCommand> = Vec::new();
        cmds.push(ScreenCommand::EnterAlternateScreen);
        cmds.push(ScreenCommand::EnableRawMode);
        cmds.push(ScreenCommand::HideCursor);
        proof {
            assert(cmds@ =~= seq![
                ScreenCommand::EnterAlternateScreen,
                ScreenCommand::EnableRawMode,
                ScreenCommand::HideCursor,
            ]);
        }
        cmds
    }

    /// The actions that restore the terminal, in order: show the cursor,
    /// leave raw mode, then return from the alternate screen.
    pub fn leave_commands() -> (cmds: Vec<ScreenCommand>)
        ensures
            cmds@ == seq![
                ScreenCommand::ShowCursor,
                ScreenCommand::DisableRawMode,
                ScreenCommand::LeaveAlternateScreen,
            ],
    {
        let mut cmds: Vec<ScreenCommand> = Vec::new();
        cmds.push(ScreenCommand::ShowCursor);
        cmds.push(ScreenCommand::DisableRawMode);
        cmds.push(ScreenCommand::LeaveAlternateScreen);
        proof {
            assert(cmds@ =~= seq![
                ScreenCommand::ShowCursor,
                ScreenCommand::DisableRawMode,
                ScreenCommand::LeaveAlternateScreen,
            ]);
        }
        cmds
    }
}

} // verus!
