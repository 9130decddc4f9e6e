use vstd::prelude::*;

use crate::actions::Action;
use crate::input::{KeyCode, KeyCombination, plain, special};

verus! {

/// Top-level state of the interaction state machine: exactly one mode is
/// active at a time.
#[derive(Debug, Clone, Copy, PartialEq, Eq, Hash, Structural)]
pub enum Mode {
    Normal,
    Insert,
    Visual,
    Command,
    Filter,
    Stats,
    Search,
}

/// A per-mode mapping from key combinations to actions. Later bindings
/// shadow earlier ones; binding prepends, so a user binding overrides a
/// default.
#[derive(Debug, Clone)]
pub struct Keymap {
    pub entries: Vec<(Mode, KeyCombination, Action)>,
}

/// The action the entry list resolves a mode and key to: the first
/// matching entry wins.
pub open spec fn lookup(
    es: Seq<(Mode, KeyCombination, Action)>,
    mode: Mode,
    key: KeyCombination,
) -> Option<Action>
    decreases es.len(),
{
    if es.len() == 0 {
        None
    } else if es[0].0 == mode && es[0].1 == key {
        Some(es[0].2)
    } else {
        lookup(es.drop_first(), mode, key)
    }
}

/// The built-in bindings.
pub open spec fn default_entries() -> Seq<(Mode, KeyCombination, Action)> {
    seq![
        (Mode::Normal, plain('j'), Action::MoveDown),
        (Mode::Normal, plain('k'), Action::MoveUp),
        (Mode::Normal, plain('G'), Action::MoveToBottom),
        (
            Mode::Normal,
            (KeyCombination { code: KeyCode::Char('d'), ctrl: true, alt: false, shift: false }),
            Action::PageDown,
        ),
        (
            Mode::Normal,
            (KeyCombination { code: KeyCode::Char('u'), ctrl: true, alt: false, shift: false }),
            Action::PageUp,
        ),
        (Mode::Normal, plain('i'), Action::EnterInsert),
        (Mode::Normal, plain('o'), Action::EnterInsertBelow),
        (Mode::Normal, plain('O'), Action::EnterInsertAbove),
        (Mode::Normal, plain('d'), Action::Delete),
        (Mode::Normal, plain('v'), Action::EnterVisual),
        (Mode::Normal, plain('r'), Action::EnterInsert),
        (Mode::Normal, plain(':'), Action::EnterCommand),
        (Mode::Normal, special(KeyCode::Enter), Action::CycleStatus),
        (Mode::Normal, plain('+'), Action::IncreasePriority),
        (Mode::Normal, plain('-'), Action::DecreasePriority),
        (Mode::Normal, plain('u'), Action::Undo),
        (
            Mode::Normal,
            (KeyCombination { code: KeyCode::Char('r'), ctrl: true, alt: false, shift: false }),
            Action::Redo,
        ),
        (Mode::Normal, plain('p'), Action::Paste),
        (Mode::Normal, plain('/'), Action::EnterSearch),
        (Mode::Visual, plain('j'), Action::MoveDown),
        (Mode::Visual, plain('k'), Action::MoveUp),
        (Mode::Visual, plain('d'), Action::Delete),
        (Mode::Visual, special(KeyCode::Esc), Action::Cancel),
        (Mode::Stats, plain('q'), Action::Cancel),
        (Mode::Stats, special(KeyCode::Esc), Action::Cancel),
    ]
}

fn plain_exec(c: char) -> (r: KeyCombination)
    ensures
        r == plain(c),
{
    KeyCombination { code: KeyCode::Char(c), ctrl: false, alt: false, shift: false }
}

fn ctrl_exec(c: char) -> (r: KeyCombination)
    ensures
        r == (KeyCombination { code: KeyCode::Char(c), ctrl: true, alt: false, shift: false }),
{
    KeyCombination { code: KeyCode::Char(c), ctrl: true, alt: false, shift: false }
}

fn special_exec(code: KeyCode) -> (r: KeyCombination)
    ensures
        r == special(code),
{
    KeyCombination { code, ctrl: false, alt: false, shift: false }
}

impl Keymap {
    /// The keymap holding exactly the built-in bindings.
    pub fn new() -> (r: Keymap)
        ensures
            r.entries@ == default_entries(),
    {
        let mut v: Vec<(Mode, KeyCombination, Action)> = Vec::new();
        v.push((Mode::Normal, plain_exec('j'), Action::MoveDown));
        v.push((Mode::Normal, plain_exec('k'), Action::MoveUp));
        v.push((Mode::Normal, plain_exec('G'), Action::MoveToBottom));
        v.push((Mode::Normal, ctrl_exec('d'), Action::PageDown));
        v.push((Mode::Normal, ctrl_exec('u'), Action::PageUp));
        v.push((Mode::Normal, plain_exec('i'), Action::EnterInsert));
        v.push((Mode::Normal, plain_exec('o'), Action::EnterInsertBelow));
        v.push((Mode::Normal, plain_exec('O'), Action::EnterInsertAbove));
        v.push((Mode::Normal, plain_exec('d'), Action::Delete));
        v.push((Mode::Normal, plain_exec('v'), Action::EnterVisual));
        v.push((Mode::Normal, plain_exec('r'), Action::EnterInsert));
        v.push((Mode::Normal, plain_exec(':'), Action::EnterCommand));
        v.push((Mode::Normal, special_exec(KeyCode::Enter), Action::CycleStatus));
        v.push((Mode::Normal, plain_exec('+'), Action::IncreasePriority));
        v.push((Mode::Normal, plain_exec('-'), Action::DecreasePriority));
        v.push((Mode::Normal, plain_exec('u'), Action::Undo));
        v.push((Mode::Normal, ctrl_exec('r'), Action::Redo));
        v.push((Mode::Normal, plain_exec('p'), Action::Paste));
        v.push((Mode::Normal, plain_exec('/'), Action::EnterSearch));
        v.push((Mode::Visual, plain_exec('j'), Action::MoveDown));
        v.push((Mode::Visual, plain_exec('k'), Action::MoveUp));
        v.push((Mode::Visual, plain_exec('d'), Action::Delete));
        v.push((Mode::Visual, special_exec(KeyCode::Esc), Action::Cancel));
        v.push((Mode::Stats, plain_exec('q'), Action::Cancel));
        v.push((Mode::Stats, special_exec(KeyCode::Esc), Action::Cancel));
        proof {
            assert(v@ =~= default_entries());
        }
        Keymap { entries: v }
    }

    /// Resolve a mode and key to an action: a pure lookup with no side
    /// effects.
    pub fn get_action(&self, mode: Mode, key: KeyCombination) -> (r: Option<Action>)
        ensures
            r == lookup(self.entries@, mode, key),
    {
        let mut i: usize = 0;
        proof {
            assert(self.entries@.skip(0) =~= self.entries@);
        }
        while i < self.entries.len()
            invariant
                i <= self.entries.len(),
                lookup(self.entries@, mode, key) == lookup(
                    self.entries@.skip(i as int),
                    mode,
                    key,
                ),
            decreases self.entries.len() - i,
        {
            let e = &self.entries[i];
            proof {
                assert(self.entries@.skip(i as int)[0] == self.entries@[i as int]);
                assert(self.entries@.skip(i as int).drop_first() =~= self.entries@.skip(
                    i as int + 1,
                ));
            }
            if e.0 == mode && e.1 == key {
                return Some(e.2);
            }
            i += 1;
        }
        proof {
            assert(self.entries@.skip(self.entries@.len() as int).len() == 0);
        }
        None
    }

    /// Add a binding, shadowing any existing binding for the same mode
    /// and key and leaving every other resolution unchanged.
    pub fn bind(&mut self, mode: Mode, key: KeyCombination, action: Action)
        ensures
            forall|m: Mode, k: KeyCombination|
                #![trigger lookup(final(self).entries@, m, k)]
                lookup(final(self).entries@, m, k) == (if m == mode && k == key {
                    Some(action)
                } else {
                    lookup(old(self).entries@, m, k)
                }),
    {
        self.entries.insert(0, (mode, key, action));
        proof {
            assert forall|m: Mode, k: KeyCombination|
                lookup(self.entries@, m, k) == (if m == mode && k == key {
                    Some(action)
                } else {
                    lookup(old(self).entries@, m, k)
                }) by {
                assert(self.entries@[0] == (mode, key, action));
                assert(self.entries@.drop_first() =~= old(self).entries@);
            }
        }
    }
}

} // verus!
