//! The decisions of the interactive loop: what each key does, and when the
//! metrics are refreshed.

use vstd::prelude::*;
use crate::models::{next_order, SortOrder};
use crate::ui::{after_scroll_down, after_scroll_up, AppUI};

verus! {

/// A key press, as far as the monitor tells keys apart.
#[derive(Debug, Clone, Copy, PartialEq, Eq, Structural)]
pub enum Key {
    Char(char),
    Up,
    Down,
    Other,
}

/// What the loop has to do after a key press.
#[derive(Debug, Clone, Copy, PartialEq, Eq, Structural)]
pub enum Command {
    /// Nothing beyond redrawing.
    Nothing,
    /// Collect the metrics anew, in the current sort order.
    Refresh,
    /// Send a termination signal to the process with this PID, then refresh.
    KillThenRefresh(u32),
}

/// The state of the monitor between key presses.
pub struct AppState {
    pub ui: AppUI,
    pub should_quit: bool,
    pub sort_order: SortOrder,
    pub update_interval_ms: u64,
}

impl AppState {
    /// The state at start: nothing selected, sorted by CPU use, refreshed
    /// every second.
    pub fn new() -> (r: Self)
        ensures
            r.ui.selected is None,
            !r.should_quit,
            r.sort_order == SortOrder::Cpu,
            r.update_interval_ms == 1000,
    {
        AppState { ui: AppUI::new(), should_quit: false, sort_order: SortOrder::Cpu, update_interval_ms: 1000 }
    }

    /// Whether the metrics are due to be collected again, `elapsed_ms` after
    /// the last collection.
    pub fn refresh_due(&self, elapsed_ms: u64) -> (r: bool)
        ensures
            r == (elapsed_ms >= self.update_interval_ms),
    {
        elapsed_ms >= self.update_interval_ms
    }

    /// Handles a key while the table shows processes with the PIDs `pids`,
    /// top row first: `q` quits, the arrows move the selection, `r`
    /// refreshes, `s` moves to the next sort order and refreshes, and `k`
    /// terminates the selected process and refreshes.
    pub fn handle_key(&mut self, key: Key, pids: &Vec<u32>) -> (r: Command)
        ensures
            final(self).update_interval_ms == old(self).update_interval_ms,
            final(self).should_quit == (old(self).should_quit || key == Key::Char('q')),
            final(self).sort_order == (if key == Key::Char('s') {
                next_order(old(self).sort_order)
            } else {
                old(self).sort_order
            }),
            final(self).ui.selected == (if key == Key::Up {
                after_scroll_up(old(self).ui.selected)
            } else if key == Key::Down {
                after_scroll_down(old(self).ui.selected, pids.len())
            } else {
                old(self).ui.selected
            }),
            r == (if key == Key::Char('r') || key == Key::Char('s') {
                Command::Refresh
            } else if key == Key::Char('k') {
                match old(self).ui.selected {
                    Some(i) if i < pids.len() => Command::KillThenRefresh(pids@[i as int]),
                    _ => Command::Nothing,
                }
            } else {
                Command::Nothing
            }),
    {
        match key {
            Key::Char('q') => {
                self.should_quit = true;
                Command::Nothing
            },
            Key::Up => {
                self.ui.scroll_up();
                Command::Nothing
            },
            Key::Down => {
                self.ui.scroll_down(pids.len());
                Command::Nothing
            },
            Key::Char('r') => Command::Refresh,
            Key::Char('s') => {
                self.sort_order = self.sort_order.next();
                Command::Refresh
            },
            Key::Char('k') => {
                match self.ui.selected {
                    Some(i) => {
                        if i < pids.len() {
                            Command::KillThenRefresh(pids[i])
                        } else {
                            Command::Nothing
                        }
                    },
                    None => Command::Nothing,
                }
            },
            _ => Command::Nothing,
        }
    }
}

} // verus!
