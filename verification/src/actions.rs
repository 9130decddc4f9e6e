use vstd::prelude::*;

use crate::text::str_eq;

verus! {

/// A user intent, resolved from input independently of the physical key
/// that triggered it.
#[derive(Debug, Clone, Copy, PartialEq, Eq, Structural)]
pub enum Action {
    Quit,
    MoveDown,
    MoveUp,
    MoveToTop,
    MoveToBottom,
    PageDown,
    PageUp,
    Delete,
    CycleStatus,
    IncreasePriority,
    DecreasePriority,
    EnterInsert,
    EnterInsertBelow,
    EnterInsertAbove,
    EnterVisual,
    EnterCommand,
    Cancel,
    Undo,
    Redo,
    ToggleCollapse,
    NextProject,
    PrevProject,
    Yank,
    Paste,
    EnterSearch,
}

impl Action {
    /// The action a stable identifier denotes, if any. These identifiers
    /// are the ones user keybindings are written in.
    pub open spec fn of_name(s: Seq<char>) -> Option<Action> {
        if s == "quit"@ {
            Some(Action::Quit)
        } else if s == "move_down"@ {
            Some(Action::MoveDown)
        } else if s == "move_up"@ {
            Some(Action::MoveUp)
        } else if s == "move_top"@ {
            Some(Action::MoveToTop)
        } else if s == "move_bottom"@ {
            Some(Action::MoveToBottom)
        } else if s == "page_down"@ {
            Some(Action::PageDown)
        } else if s == "page_up"@ {
            Some(Action::PageUp)
        } else if s == "delete"@ || s == "delete_task"@ {
            Some(Action::Delete)
        } else if s == "cycle_status"@ {
            Some(Action::CycleStatus)
        } else if s == "increase_priority"@ {
            Some(Action::IncreasePriority)
        } else if s == "decrease_priority"@ {
            Some(Action::DecreasePriority)
        } else if s == "insert"@ {
            Some(Action::EnterInsert)
        } else if s == "insert_below"@ || s == "add_below"@ {
            Some(Action::EnterInsertBelow)
        } else if s == "insert_above"@ || s == "add_above"@ {
            Some(Action::EnterInsertAbove)
        } else if s == "visual"@ {
            Some(Action::EnterVisual)
        } else if s == "command"@ {
            Some(Action::EnterCommand)
        } else if s == "cancel"@ {
            Some(Action::Cancel)
        } else if s == "undo"@ {
            Some(Action::Undo)
        } else if s == "redo"@ {
            Some(Action::Redo)
        } else if s == "toggle_collapse"@ {
            Some(Action::ToggleCollapse)
        } else if s == "next_project"@ {
            Some(Action::NextProject)
        } else if s == "prev_project"@ {
            Some(Action::PrevProject)
        } else if s == "yank"@ {
            Some(Action::Yank)
        } else if s == "paste"@ {
            Some(Action::Paste)
        } else if s == "search"@ {
            Some(Action::EnterSearch)
        } else {
            None
        }
    }

    /// Parse a stable action identifier; unknown identifiers yield
    /// nothing and have no effect.
    pub fn from_str(s: &str) -> (r: Option<Action>)
        ensures
            r == Action::of_name(s@),
    {
        if str_eq(s, "quit") {
            Some(Action::Quit)
        } else if str_eq(s, "move_down") {
            Some(Action::MoveDown)
        } else if str_eq(s, "move_up") {
            Some(Action::MoveUp)
        } else if str_eq(s, "move_top") {
            Some(Action::MoveToTop)
        } else if str_eq(s, "move_bottom") {
            Some(Action::MoveToBottom)
        } else if str_eq(s, "page_down") {
            Some(Action::PageDown)
        } else if str_eq(s, "page_up") {
            Some(Action::PageUp)
        } else if str_eq(s, "delete") || str_eq(s, "delete_task") {
            Some(Action::Delete)
        } else if str_eq(s, "cycle_status") {
            Some(Action::CycleStatus)
        } else if str_eq(s, "increase_priority") {
            Some(Action::IncreasePriority)
        } else if str_eq(s, "decrease_priority") {
            Some(Action::DecreasePriority)
        } else if str_eq(s, "insert") {
            Some(Action::EnterInsert)
        } else if str_eq(s, "insert_below") || str_eq(s, "add_below") {
            Some(Action::EnterInsertBelow)
        } else if str_eq(s, "insert_above") || str_eq(s, "add_above") {
            Some(Action::EnterInsertAbove)
        } else if str_eq(s, "visual") {
            Some(Action::EnterVisual)
        } else if str_eq(s, "command") {
            Some(Action::EnterCommand)
        } else if str_eq(s, "cancel") {
            Some(Action::Cancel)
        } else if str_eq(s, "undo") {
            Some(Action::Undo)
        } else if str_eq(s, "redo") {
            Some(Action::Redo)
        } else if str_eq(s, "toggle_collapse") {
            Some(Action::ToggleCollapse)
        } else if str_eq(s, "next_project") {
            Some(Action::NextProject)
        } else if str_eq(s, "prev_project") {
            Some(Action::PrevProject)
        } else if str_eq(s, "yank") {
            Some(Action::Yank)
        } else if str_eq(s, "paste") {
            Some(Action::Paste)
        } else if str_eq(s, "search") {
            Some(Action::EnterSearch)
        } else {
            None
        }
    }
}

} // verus!
