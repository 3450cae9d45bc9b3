//! The tray menu: which action a menu event asks for, and how left clicks on
//! the tray icon are told apart from double clicks.
use vstd::prelude::*;

use crate::text::same_text;

verus! {

/// What a tray menu entry asks for.
#[derive(Clone, Copy, Debug, PartialEq, Eq, Structural)]
pub enum Action {
    New,
    ShowAll,
    HideAll,
    Quit,
}

/// The ids of the tray menu's entries.
#[derive(Debug)]
pub struct TrayMenu {
    pub new_id: String,
    pub show_id: String,
    pub hide_id: String,
    pub quit_id: String,
}

/// The action of the entry with id `id`, the entries tried in menu order.
pub open spec fn action_for(menu: &TrayMenu, id: Seq<char>) -> Option<Action> {
    if id == menu.new_id@ {
        Some(Action::New)
    } else if id == menu.show_id@ {
        Some(Action::ShowAll)
    } else if id == menu.hide_id@ {
        Some(Action::HideAll)
    } else if id == menu.quit_id@ {
        Some(Action::Quit)
    } else {
        None
    }
}

impl TrayMenu {
    /// The action that a menu event with id `event_id` asks for; nothing for
    /// an id of no entry.
    pub fn action(&self, event_id: &str) -> (r: Option<Action>)
        ensures
            r == action_for(self, event_id@),
    {
        if same_text(event_id, self.new_id.as_str()) {
            Some(Action::New)
        } else if same_text(event_id, self.show_id.as_str()) {
            Some(Action::ShowAll)
        } else if same_text(event_id, self.hide_id.as_str()) {
            Some(Action::HideAll)
        } else if same_text(event_id, self.quit_id.as_str()) {
            Some(Action::Quit)
        } else {
            None
        }
    }
}

/// Two left clicks on the tray icon less than this many milliseconds apart
/// make a double click.
pub const DOUBLE_CLICK_MS: u64 = 350;

/// Left clicks on the tray icon: the time of a click that may still become
/// a double click.
#[derive(Debug)]
pub struct TrayClicks {
    pub pending: Option<u64>,
}

impl TrayClicks {
    /// No click pending.
    pub fn new() -> (c: Self)
        ensures
            c.pending is None,
    {
        TrayClicks { pending: None }
    }

    /// A left click at `now` (milliseconds on a monotonic clock). A click
    /// less than `DOUBLE_CLICK_MS` after a pending one is a double click: it
    /// asks for a new note (true) and nothing stays pending. Otherwise the
    /// click becomes the pending one.
    pub fn click(&mut self, now: u64) -> (new_note: bool)
        ensures
            new_note == (old(self).pending matches Some(prev) && (if now >= prev {
                now - prev
            } else {
                0
            }) < DOUBLE_CLICK_MS),
            new_note ==> final(self).pending is None,
            !new_note ==> final(self).pending == Some(now),
    {
        match self.pending {
            Some(prev) => {
                self.pending = None;
                if now.saturating_sub(prev) < DOUBLE_CLICK_MS {
                    return true;
                }
            },
            None => {},
        }
        self.pending = Some(now);
        false
    }

    /// A look at the clock at `now`: a pending click that has waited
    /// `DOUBLE_CLICK_MS` or more is a single click, which asks to show or
    /// hide all notes (true) and is no longer pending.
    pub fn poll(&mut self, now: u64) -> (toggle: bool)
        ensures
            toggle == (old(self).pending matches Some(prev) && (if now >= prev {
                now - prev
            } else {
                0
            }) >= DOUBLE_CLICK_MS),
            toggle ==> final(self).pending is None,
            !toggle ==> final(self).pending == old(self).pending,
    {
        match self.pending {
            Some(prev) => {
                if now.saturating_sub(prev) >= DOUBLE_CLICK_MS {
                    self.pending = None;
                    true
                } else {
                    false
                }
            },
            None => false,
        }
    }
}

} // verus!
