//! What a key does in the debugger: the decision, as a command the terminal loop carries out.
use vstd::prelude::*;
use super::app::{ActivePane, ExecutionState};

verus! {

/// A key as the debugger tells keys apart.
#[derive(Debug, Clone, Copy, PartialEq, Eq, Structural)]
pub enum DebuggerKey {
    Char(char),
    /// A function key, by its number.
    F(u8),
    Tab,
    Up,
    Down,
    PageUp,
    PageDown,
    Other,
}

/// What the debugger does for a key.
#[derive(Debug, Clone, Copy, PartialEq, Eq, Structural)]
pub enum DebuggerCommand {
    Quit,
    Step,
    Pause,
    Continue,
    ToggleBreakpoint,
    Reset,
    FollowPc,
    TogglePane,
    CursorUp,
    CursorDown,
    PageUp,
    PageDown,
    ConsoleScrollUp,
    ConsoleScrollDown,
    ConsolePageUp,
    ConsolePageDown,
    Nothing,
}

/// The command of `key`, Ctrl held or not, in execution state `state` with `pane` active:
/// Ctrl-C and `q` quit; `s`, Space and F7 step, or pause a running program; `c` and F5
/// continue; `p` pauses; `b` and F9 toggle a breakpoint; `r` resets; `g` goes to the program
/// counter; Tab switches panes; the arrows, `k` and `j`, Page Up and Page Down move in the
/// active pane.
pub open spec fn key_command_spec(key: DebuggerKey, control: bool, state: ExecutionState, pane: ActivePane) -> DebuggerCommand {
    let disassembly = pane == ActivePane::Disassembly;
    if control && key == DebuggerKey::Char('c') {
        DebuggerCommand::Quit
    } else {
        match key {
            DebuggerKey::Char('q') => DebuggerCommand::Quit,
            DebuggerKey::Char('s') | DebuggerKey::Char(' ') | DebuggerKey::F(7) =>
                if state == ExecutionState::Running { DebuggerCommand::Pause } else { DebuggerCommand::Step },
            DebuggerKey::Char('c') | DebuggerKey::F(5) => DebuggerCommand::Continue,
            DebuggerKey::Char('p') => DebuggerCommand::Pause,
            DebuggerKey::Char('b') | DebuggerKey::F(9) => DebuggerCommand::ToggleBreakpoint,
            DebuggerKey::Char('r') => DebuggerCommand::Reset,
            DebuggerKey::Char('g') => DebuggerCommand::FollowPc,
            DebuggerKey::Tab => DebuggerCommand::TogglePane,
            DebuggerKey::Up | DebuggerKey::Char('k') =>
                if disassembly { DebuggerCommand::CursorUp } else { DebuggerCommand::ConsoleScrollUp },
            DebuggerKey::Down | DebuggerKey::Char('j') =>
                if disassembly { DebuggerCommand::CursorDown } else { DebuggerCommand::ConsoleScrollDown },
            DebuggerKey::PageUp => if disassembly { DebuggerCommand::PageUp } else { DebuggerCommand::ConsolePageUp },
            DebuggerKey::PageDown => if disassembly { DebuggerCommand::PageDown } else { DebuggerCommand::ConsolePageDown },
            _ => DebuggerCommand::Nothing,
        }
    }
}

/// The command of a key.
pub fn key_command(key: DebuggerKey, control: bool, state: ExecutionState, pane: ActivePane) -> (command: DebuggerCommand)
    ensures
        command == key_command_spec(key, control, state, pane),
{
    let disassembly = match pane {
        ActivePane::Disassembly => true,
        ActivePane::Console => false,
    };
    let running = match state {
        ExecutionState::Running => true,
        _ => false,
    };
    if control {
        if let DebuggerKey::Char('c') = key {
            return DebuggerCommand::Quit;
        }
    }
    match key {
        DebuggerKey::Char('q') => DebuggerCommand::Quit,
        DebuggerKey::Char('s') | DebuggerKey::Char(' ') | DebuggerKey::F(7) =>
            if running { DebuggerCommand::Pause } else { DebuggerCommand::Step },
        DebuggerKey::Char('c') | DebuggerKey::F(5) => DebuggerCommand::Continue,
        DebuggerKey::Char('p') => DebuggerCommand::Pause,
        DebuggerKey::Char('b') | DebuggerKey::F(9) => DebuggerCommand::ToggleBreakpoint,
        DebuggerKey::Char('r') => DebuggerCommand::Reset,
        DebuggerKey::Char('g') => DebuggerCommand::FollowPc,
        DebuggerKey::Tab => DebuggerCommand::TogglePane,
        DebuggerKey::Up | DebuggerKey::Char('k') =>
            if disassembly { DebuggerCommand::CursorUp } else { DebuggerCommand::ConsoleScrollUp },
        DebuggerKey::Down | DebuggerKey::Char('j') =>
            if disassembly { DebuggerCommand::CursorDown } else { DebuggerCommand::ConsoleScrollDown },
        DebuggerKey::PageUp => if disassembly { DebuggerCommand::PageUp } else { DebuggerCommand::ConsolePageUp },
        DebuggerKey::PageDown => if disassembly { DebuggerCommand::PageDown } else { DebuggerCommand::ConsolePageDown },
        _ => DebuggerCommand::Nothing,
    }
}

} // verus!
