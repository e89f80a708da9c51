use vstd::prelude::*;
use vstd::string::StringExecFns;

use crate::text::{decimal, decimal_string};

verus! {

/// A key pressed in watch mode.
#[derive(Debug, Clone, Copy, PartialEq, Eq, Structural)]
pub enum WatchKey {
    Char(char),
    Esc,
    Other,
}

/// What happened since the last look at the terminal.
#[derive(Debug, Clone, Copy, PartialEq, Eq, Structural)]
pub enum WatchEvent {
    /// A key was pressed, with Control held or not.
    Key { key: WatchKey, ctrl: bool },
    /// No key was pressed.
    Idle,
}

/// What watch mode does next.
#[derive(Debug, Clone, Copy, PartialEq, Eq, Structural)]
pub enum WatchAction {
    /// Leave watch mode.
    Quit,
    /// Scan again and redraw.
    Refresh,
    /// Keep waiting.
    Wait,
}

/// `q`, Esc and Ctrl+C leave watch mode.
pub open spec fn quits(event: WatchEvent) -> bool {
    match event {
        WatchEvent::Key { key, ctrl } => match key {
            WatchKey::Char(c) => c == 'q' || (c == 'c' && ctrl),
            WatchKey::Esc => true,
            WatchKey::Other => false,
        },
        WatchEvent::Idle => false,
    }
}

/// The next step of watch mode, after `event`, when `elapsed_nanos`
/// nanoseconds have passed since the last scan and the refresh interval is
/// `interval_secs` seconds: quit on a quit key, else refresh once the
/// interval has passed, else wait.
pub fn watch_step(event: WatchEvent, elapsed_nanos: u128, interval_secs: u64) -> (r: WatchAction)
    ensures
        r == if quits(event) {
            WatchAction::Quit
        } else if elapsed_nanos >= interval_secs * 1_000_000_000 {
            WatchAction::Refresh
        } else {
            WatchAction::Wait
        },
{
    let quit = match event {
        WatchEvent::Key { key, ctrl } => match key {
            WatchKey::Char(c) => c == 'q' || (c == 'c' && ctrl),
            WatchKey::Esc => true,
            WatchKey::Other => false,
        },
        WatchEvent::Idle => false,
    };
    if quit {
        WatchAction::Quit
    } else if elapsed_nanos >= (interval_secs as u128) * 1_000_000_000 {
        WatchAction::Refresh
    } else {
        WatchAction::Wait
    }
}

/// The header line shown above the table in watch mode.
pub open spec fn watch_header_text(interval_secs: u64) -> Seq<char> {
    " portpeek — watching (refresh: "@ + decimal(interval_secs as nat)
        + "s) · press 'q' to quit\n"@
}

/// The header line shown above the table in watch mode.
pub fn watch_header(interval_secs: u64) -> (r: String)
    ensures
        r@ == watch_header_text(interval_secs),
{
    let mut s = String::from_str(" portpeek — watching (refresh: ");
    s.append(decimal_string(interval_secs).as_str());
    s.append("s) · press 'q' to quit\n");
    s
}

} // verus!
