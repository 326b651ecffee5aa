//! What the keys and the mouse wheel mean.

use vstd::prelude::*;
use crate::launcher::LauncherAction;

verus! {

/// A key of the keyboard, as far as keys are told apart here.
#[derive(Debug, Clone, Copy, PartialEq, Eq, Structural)]
pub enum KeyCode {
    Char(char),
    Esc,
    Enter,
    Tab,
    Backspace,
    Up,
    Down,
    Home,
    End,
    PageUp,
    PageDown,
    /// Any other key.
    Other,
}

/// Whether a key went down, is held or went up.
#[derive(Debug, Clone, Copy, PartialEq, Eq, Structural)]
pub enum KeyEventKind {
    Press,
    Repeat,
    Release,
}

/// One event of the keyboard.
#[derive(Debug, Clone, Copy, PartialEq, Eq, Structural)]
pub struct KeyEvent {
    pub code: KeyCode,
    pub ctrl: bool,
    pub shift: bool,
    pub kind: KeyEventKind,
}

/// One event of the mouse, as far as events are told apart here.
#[derive(Debug, Clone, Copy, PartialEq, Eq, Structural)]
pub enum MouseEventKind {
    ScrollUp,
    ScrollDown,
    /// Any other event.
    Other,
}

/// What the user asks of the dashboard.
#[derive(Debug, Clone, Copy, PartialEq, Eq, Structural)]
pub enum Action {
    /// Leave without cancelling the run.
    Quit,
    /// Cancel the run: softly at first, and hard the second time.
    Interrupt,
    SelectNext,
    SelectPrev,
    SelectFirst,
    SelectLast,
    ClearLogs,
    Redraw,
    /// Scroll the log towards older lines.
    LogScrollUp(usize),
    /// Scroll the log towards newer lines.
    LogScrollDown(usize),
    /// Show the oldest line of the log.
    LogScrollHome,
    /// Show the newest line of the log and follow it.
    LogScrollEnd,
    /// Run the selected task again, whether or not it is cached.
    ForceRerunSelected,
    /// Run the whole target again, whether or not its tasks are cached.
    ForceRerunAll,
    Ignore,
}

/// How many lines a page key moves the log.
pub const PAGE_SCROLL: usize = 10;

/// How many lines a notch of the wheel moves the log.
pub const MOUSE_WHEEL_LINES: usize = 3;

/// What a key means on the dashboard.
pub open spec fn key_action(event: KeyEvent) -> Action {
    match event.code {
        KeyCode::Char('q') => Action::Quit,
        KeyCode::Char('Q') => Action::Quit,
        KeyCode::Esc => Action::Quit,
        KeyCode::Char('c') => if event.ctrl {
            Action::Interrupt
        } else {
            Action::ClearLogs
        },
        KeyCode::Char('r') => Action::Redraw,
        KeyCode::Char('R') => Action::Redraw,
        KeyCode::PageUp => Action::LogScrollUp(PAGE_SCROLL),
        KeyCode::PageDown => Action::LogScrollDown(PAGE_SCROLL),
        KeyCode::Up => if event.shift {
            Action::LogScrollUp(1)
        } else {
            Action::SelectPrev
        },
        KeyCode::Down => if event.shift {
            Action::LogScrollDown(1)
        } else {
            Action::SelectNext
        },
        KeyCode::Home => if event.shift {
            Action::LogScrollHome
        } else {
            Action::SelectFirst
        },
        KeyCode::End => if event.shift {
            Action::LogScrollEnd
        } else {
            Action::SelectLast
        },
        KeyCode::Char('j') => Action::SelectNext,
        KeyCode::Char('k') => Action::SelectPrev,
        KeyCode::Char('g') => Action::SelectFirst,
        KeyCode::Char('G') => Action::SelectLast,
        KeyCode::Char('x') => Action::ForceRerunSelected,
        KeyCode::Char('X') => Action::ForceRerunAll,
        _ => Action::Ignore,
    }
}

/// What a key means on the dashboard.
pub fn map_key(event: KeyEvent) -> (r: Action)
    ensures
        r == key_action(event),
{
    match event.code {
        KeyCode::Esc => Action::Quit,
        KeyCode::PageUp => Action::LogScrollUp(PAGE_SCROLL),
        KeyCode::PageDown => Action::LogScrollDown(PAGE_SCROLL),
        KeyCode::Up => if event.shift {
            Action::LogScrollUp(1)
        } else {
            Action::SelectPrev
        },
        KeyCode::Down => if event.shift {
            Action::LogScrollDown(1)
        } else {
            Action::SelectNext
        },
        KeyCode::Home => if event.shift {
            Action::LogScrollHome
        } else {
            Action::SelectFirst
        },
        KeyCode::End => if event.shift {
            Action::LogScrollEnd
        } else {
            Action::SelectLast
        },
        KeyCode::Char(c) => if c == 'q' || c == 'Q' {
            Action::Quit
        } else if c == 'c' {
            if event.ctrl {
                Action::Interrupt
            } else {
                Action::ClearLogs
            }
        } else if c == 'r' || c == 'R' {
            Action::Redraw
        } else if c == 'j' {
            Action::SelectNext
        } else if c == 'k' {
            Action::SelectPrev
        } else if c == 'g' {
            Action::SelectFirst
        } else if c == 'G' {
            Action::SelectLast
        } else if c == 'x' {
            Action::ForceRerunSelected
        } else if c == 'X' {
            Action::ForceRerunAll
        } else {
            Action::Ignore
        },
        _ => Action::Ignore,
    }
}

/// What an event of the mouse means on the dashboard; `None` for anything but
/// the wheel.
pub fn map_mouse_to_log_scroll(kind: MouseEventKind) -> (r: Option<Action>)
    ensures
        r == (match kind {
            MouseEventKind::ScrollUp => Some(Action::LogScrollUp(MOUSE_WHEEL_LINES)),
            MouseEventKind::ScrollDown => Some(Action::LogScrollDown(MOUSE_WHEEL_LINES)),
            MouseEventKind::Other => None,
        }),
{
    match kind {
        MouseEventKind::ScrollUp => Some(Action::LogScrollUp(MOUSE_WHEEL_LINES)),
        MouseEventKind::ScrollDown => Some(Action::LogScrollDown(MOUSE_WHEEL_LINES)),
        MouseEventKind::Other => None,
    }
}

/// What a key means on the launcher screen. Only keys that go down mean
/// anything.
pub open spec fn launcher_key_action(key: KeyEvent) -> LauncherAction {
    if key.kind != KeyEventKind::Press {
        LauncherAction::Ignore
    } else {
        match key.code {
            KeyCode::Char(c) => if !key.ctrl {
                LauncherAction::InsertChar(c)
            } else if c == 'c' {
                LauncherAction::Quit
            } else if c == 'u' {
                LauncherAction::ClearInput
            } else {
                LauncherAction::Ignore
            },
            KeyCode::Esc => LauncherAction::ClearInput,
            KeyCode::Enter => LauncherAction::Enter,
            KeyCode::Tab => LauncherAction::Complete,
            KeyCode::Backspace => LauncherAction::Backspace,
            KeyCode::Up => LauncherAction::Up,
            KeyCode::Down => LauncherAction::Down,
            KeyCode::Home => LauncherAction::Home,
            KeyCode::End => LauncherAction::End,
            KeyCode::PageUp => LauncherAction::Ignore,
            KeyCode::PageDown => LauncherAction::Ignore,
            KeyCode::Other => LauncherAction::Ignore,
        }
    }
}

/// What a key means on the launcher screen.
pub fn map_launcher_key(key: KeyEvent) -> (r: LauncherAction)
    ensures
        r == launcher_key_action(key),
{
    if key.kind == KeyEventKind::Release || key.kind == KeyEventKind::Repeat {
        return LauncherAction::Ignore;
    }
    match key.code {
        KeyCode::Esc => LauncherAction::ClearInput,
        KeyCode::Enter => LauncherAction::Enter,
        KeyCode::Tab => LauncherAction::Complete,
        KeyCode::Backspace => LauncherAction::Backspace,
        KeyCode::Up => LauncherAction::Up,
        KeyCode::Down => LauncherAction::Down,
        KeyCode::Home => LauncherAction::Home,
        KeyCode::End => LauncherAction::End,
        KeyCode::Char(c) => if key.ctrl {
            if c == 'c' {
                LauncherAction::Quit
            } else if c == 'u' {
                LauncherAction::ClearInput
            } else {
                LauncherAction::Ignore
            }
        } else {
            LauncherAction::InsertChar(c)
        },
        _ => LauncherAction::Ignore,
    }
}

/// On the dashboard, each action has its keys and no others: `q`, `Q` and Esc leave, `c` with
/// Ctrl interrupts and without it clears the log, the arrows, `j` and `k` move the cursor by
/// one, Home and `g` move it to the first task and End and `G` to the last one, with Shift the
/// arrows, Home and End scroll the log instead, a page is ten lines, `x` runs the task again
/// and `X` the target.
pub proof fn law_keys_of_the_dashboard(event: KeyEvent, r: Action)
    requires
        call_ensures(map_key, (event,), r),
    ensures
        r == Action::Quit <==> event.code == KeyCode::Esc || event.code == KeyCode::Char('q') || event.code
            == KeyCode::Char('Q'),
        r == Action::Interrupt <==> event.code == KeyCode::Char('c') && event.ctrl,
        r == Action::ClearLogs <==> event.code == KeyCode::Char('c') && !event.ctrl,
        r == Action::Redraw <==> event.code == KeyCode::Char('r') || event.code == KeyCode::Char('R'),
        r == Action::SelectPrev <==> event.code == KeyCode::Char('k') || event.code == KeyCode::Up
            && !event.shift,
        r == Action::SelectNext <==> event.code == KeyCode::Char('j') || event.code == KeyCode::Down
            && !event.shift,
        r == Action::SelectFirst <==> event.code == KeyCode::Char('g') || event.code == KeyCode::Home
            && !event.shift,
        r == Action::SelectLast <==> event.code == KeyCode::Char('G') || event.code == KeyCode::End
            && !event.shift,
        r == Action::LogScrollUp(1) <==> event.code == KeyCode::Up && event.shift,
        r == Action::LogScrollDown(1) <==> event.code == KeyCode::Down && event.shift,
        r == Action::LogScrollUp(10) <==> event.code == KeyCode::PageUp,
        r == Action::LogScrollDown(10) <==> event.code == KeyCode::PageDown,
        r == Action::LogScrollHome <==> event.code == KeyCode::Home && event.shift,
        r == Action::LogScrollEnd <==> event.code == KeyCode::End && event.shift,
        r == Action::ForceRerunSelected <==> event.code == KeyCode::Char('x'),
        r == Action::ForceRerunAll <==> event.code == KeyCode::Char('X'),
        key_action(event) == r,
{
}

/// A notch of the wheel scrolls the log by three lines, the way it is turned; nothing else
/// that the mouse does means anything.
pub proof fn law_wheel_scrolls_three_lines(kind: MouseEventKind, r: Option<Action>)
    requires
        call_ensures(map_mouse_to_log_scroll, (kind,), r),
    ensures
        kind == MouseEventKind::ScrollUp <==> r == Some(Action::LogScrollUp(3)),
        kind == MouseEventKind::ScrollDown <==> r == Some(Action::LogScrollDown(3)),
        kind == MouseEventKind::Other <==> r is None,
{
}

/// On the launcher screen, a key that is held or let go means nothing. A character without
/// Ctrl is typed as it is, `c` with Ctrl leaves, `u` with Ctrl and Esc clear the line, and
/// Enter, Tab, Backspace, the arrows, Home and End are the keys of their actions, alone.
pub proof fn law_keys_of_the_launcher(key: KeyEvent, r: LauncherAction)
    requires
        call_ensures(map_launcher_key, (key,), r),
    ensures
        key.kind != KeyEventKind::Press ==> r == LauncherAction::Ignore,
        key.kind == KeyEventKind::Press ==> {
            &&& r matches LauncherAction::InsertChar(c) ==> key.code == KeyCode::Char(c) && !key.ctrl
            &&& key.code matches KeyCode::Char(c) ==> !key.ctrl ==> r == LauncherAction::InsertChar(c)
            &&& r == LauncherAction::Quit <==> key.code == KeyCode::Char('c') && key.ctrl
            &&& r == LauncherAction::ClearInput <==> key.code == KeyCode::Esc || key.code
                == KeyCode::Char('u') && key.ctrl
            &&& r == LauncherAction::Enter <==> key.code == KeyCode::Enter
            &&& r == LauncherAction::Complete <==> key.code == KeyCode::Tab
            &&& r == LauncherAction::Backspace <==> key.code == KeyCode::Backspace
            &&& r == LauncherAction::Up <==> key.code == KeyCode::Up
            &&& r == LauncherAction::Down <==> key.code == KeyCode::Down
            &&& r == LauncherAction::Home <==> key.code == KeyCode::Home
            &&& r == LauncherAction::End <==> key.code == KeyCode::End
        },
        launcher_key_action(key) == r,
{
}

} // verus!
