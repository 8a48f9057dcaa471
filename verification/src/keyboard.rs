//! Keyboard translation: key names become navigation commands.
//!
//! The host delivers raw key strings; the table here is the whole mapping,
//! so the navigation logic above it can be driven by plain values.

use vstd::prelude::*;
use crate::text::str_eq;

verus! {

/// A navigation or editing command derived from a key.
#[derive(Clone, Copy, Debug, PartialEq, Eq, Structural)]
pub enum NavigationCommand {
    MoveUp,
    MoveDown,
    MoveLeft,
    MoveRight,
    PageUp,
    PageDown,
    Home,
    End,
    Enter,
    Escape,
    Tab,
    Delete,
    DocumentStart,
    DocumentEnd,
    Undo,
    Redo,
}

/// The command a bare key denotes, if any.
pub open spec fn key_command(k: Seq<char>) -> Option<NavigationCommand> {
    if k == "ArrowUp"@ {
        Some(NavigationCommand::MoveUp)
    } else if k == "ArrowDown"@ {
        Some(NavigationCommand::MoveDown)
    } else if k == "ArrowLeft"@ {
        Some(NavigationCommand::MoveLeft)
    } else if k == "ArrowRight"@ {
        Some(NavigationCommand::MoveRight)
    } else if k == "PageUp"@ {
        Some(NavigationCommand::PageUp)
    } else if k == "PageDown"@ {
        Some(NavigationCommand::PageDown)
    } else if k == "Home"@ {
        Some(NavigationCommand::Home)
    } else if k == "End"@ {
        Some(NavigationCommand::End)
    } else if k == "Enter"@ {
        Some(NavigationCommand::Enter)
    } else if k == "Escape"@ {
        Some(NavigationCommand::Escape)
    } else if k == "Tab"@ {
        Some(NavigationCommand::Tab)
    } else if k == "Delete"@ {
        Some(NavigationCommand::Delete)
    } else {
        None
    }
}

/// The command a key denotes under a control modifier: jumps to the
/// document corners and the undo/redo shortcuts take over, anything else
/// falls back to the bare table.
pub open spec fn key_command_ctrl(k: Seq<char>) -> Option<NavigationCommand> {
    if k == "Home"@ {
        Some(NavigationCommand::DocumentStart)
    } else if k == "End"@ {
        Some(NavigationCommand::DocumentEnd)
    } else if k == "z"@ {
        Some(NavigationCommand::Undo)
    } else if k == "y"@ {
        Some(NavigationCommand::Redo)
    } else {
        key_command(k)
    }
}

/// Translates key names to [`NavigationCommand`]s.
pub struct KeyboardHandler {
}

impl KeyboardHandler {
    /// A handler; it keeps no state.
    pub fn new() -> (r: KeyboardHandler) {
        KeyboardHandler {  }
    }

    /// The command for a bare key; mirrors [`key_command`] exactly.
    pub fn handle_key(&self, key: &str) -> (r: Option<NavigationCommand>)
        ensures
            r == key_command(key@),
    {
        if str_eq(key, "ArrowUp") {
            Some(NavigationCommand::MoveUp)
        } else if str_eq(key, "ArrowDown") {
            Some(NavigationCommand::MoveDown)
        } else if str_eq(key, "ArrowLeft") {
            Some(NavigationCommand::MoveLeft)
        } else if str_eq(key, "ArrowRight") {
            Some(NavigationCommand::MoveRight)
        } else if str_eq(key, "PageUp") {
            Some(NavigationCommand::PageUp)
        } else if str_eq(key, "PageDown") {
            Some(NavigationCommand::PageDown)
        } else if str_eq(key, "Home") {
            Some(NavigationCommand::Home)
        } else if str_eq(key, "End") {
            Some(NavigationCommand::End)
        } else if str_eq(key, "Enter") {
            Some(NavigationCommand::Enter)
        } else if str_eq(key, "Escape") {
            Some(NavigationCommand::Escape)
        } else if str_eq(key, "Tab") {
            Some(NavigationCommand::Tab)
        } else if str_eq(key, "Delete") {
            Some(NavigationCommand::Delete)
        } else {
            None
        }
    }

    /// The command for a key with the control modifier state; mirrors
    /// [`key_command_ctrl`] under control, [`key_command`] otherwise.
    pub fn handle_key_with_modifiers(&self, key: &str, ctrl: bool)
        -> (r: Option<NavigationCommand>)
        ensures
            r == if ctrl { key_command_ctrl(key@) } else { key_command(key@) },
    {
        if ctrl {
            if str_eq(key, "Home") {
                Some(NavigationCommand::DocumentStart)
            } else if str_eq(key, "End") {
                Some(NavigationCommand::DocumentEnd)
            } else if str_eq(key, "z") {
                Some(NavigationCommand::Undo)
            } else if str_eq(key, "y") {
                Some(NavigationCommand::Redo)
            } else {
                self.handle_key(key)
            }
        } else {
            self.handle_key(key)
        }
    }
}

} // verus!
