use taskvim::actions::Action;
use taskvim::input::{KeyCode, KeyCombination};
use taskvim::keymap::{Keymap, Mode};
use taskvim::state::{AppState, Config, Effect, HookKind, MacroReg};
use taskvim::store::TaskStore;

fn plain(c: char) -> KeyCombination {
    KeyCombination { code: KeyCode::Char(c), ctrl: false, alt: false, shift: false }
}

fn fresh_state() -> AppState {
    AppState::new(TaskStore::new(), Config::new_default()).unwrap()
}

#[test]
fn action_names_parse() {
    assert_eq!(Action::from_str("quit"), Some(Action::Quit));
    assert_eq!(Action::from_str("move_down"), Some(Action::MoveDown));
    assert_eq!(Action::from_str("delete"), Some(Action::Delete));
    assert_eq!(Action::from_str("delete_task"), Some(Action::Delete));
    assert_eq!(Action::from_str("add_below"), Some(Action::EnterInsertBelow));
    assert_eq!(Action::from_str("search"), Some(Action::EnterSearch));
    assert_eq!(Action::from_str("no_such_action"), None);
}

#[test]
fn key_notation_parses() {
    assert_eq!(
        KeyCombination::from_str("ctrl-d"),
        Some(KeyCombination { code: KeyCode::Char('d'), ctrl: true, alt: false, shift: false })
    );
    assert_eq!(KeyCombination::from_str("-"), Some(plain('-')));
    assert_eq!(
        KeyCombination::from_str("enter"),
        Some(KeyCombination { code: KeyCode::Enter, ctrl: false, alt: false, shift: false })
    );
    assert_eq!(KeyCombination::from_str("G"), Some(plain('G')));
    assert_eq!(
        KeyCombination::from_str("space"),
        Some(plain(' '))
    );
    assert_eq!(
        KeyCombination::from_str("alt-shift-x"),
        Some(KeyCombination { code: KeyCode::Char('x'), ctrl: false, alt: true, shift: true })
    );
    assert_eq!(KeyCombination::from_str("bogus"), None);
}

#[test]
fn default_keymap_resolves() {
    let km = Keymap::new();
    assert_eq!(km.get_action(Mode::Normal, plain('j')), Some(Action::MoveDown));
    assert_eq!(km.get_action(Mode::Normal, plain('k')), Some(Action::MoveUp));
    assert_eq!(km.get_action(Mode::Normal, plain('d')), Some(Action::Delete));
    assert_eq!(
        km.get_action(
            Mode::Normal,
            KeyCombination { code: KeyCode::Char('d'), ctrl: true, alt: false, shift: false }
        ),
        Some(Action::PageDown)
    );
    assert_eq!(km.get_action(Mode::Visual, plain('d')), Some(Action::Delete));
    assert_eq!(km.get_action(Mode::Stats, plain('q')), Some(Action::Cancel));
    assert_eq!(km.get_action(Mode::Normal, plain('g')), None);
}

#[test]
fn binding_shadows_default() {
    let mut km = Keymap::new();
    km.bind(Mode::Normal, plain('j'), Action::MoveUp);
    assert_eq!(km.get_action(Mode::Normal, plain('j')), Some(Action::MoveUp));
    assert_eq!(km.get_action(Mode::Normal, plain('k')), Some(Action::MoveUp));
}

#[test]
fn pending_g_sequences() {
    let mut state = fresh_state();
    for t in ["a", "b", "c"] {
        state.add_task(t.to_string()).unwrap();
    }
    state.selected_index = 2;
    state.handle_key(plain('g')).unwrap();
    state.handle_key(plain('g')).unwrap();
    assert_eq!(state.selected_index, 0);
}

#[test]
fn yank_yank_sequence_yanks() {
    let mut state = fresh_state();
    state.add_task("dup".to_string()).unwrap();
    state.selected_index = 0;
    state.handle_key(plain('y')).unwrap();
    assert!(state.yanked_task.is_none());
    state.handle_key(plain('y')).unwrap();
    assert!(state.yanked_task.is_some());
}

#[test]
fn macro_replay_matches_live_typing() {
    // two states prepared the same way, a macro on one, live keys on the other
    let mut recorded = fresh_state();
    let mut live = fresh_state();
    for t in ["k0", "k1", "k2", "k3"] {
        recorded.add_task(t.to_string()).unwrap();
        live.add_task(t.to_string()).unwrap();
    }
    recorded.selected_index = 0;
    live.selected_index = 0;
    recorded.macros.push(MacroReg {
        register: 'a',
        events: vec![plain('j'), plain('j'), plain('d')],
    });

    recorded.handle_key(plain('@')).unwrap();
    recorded.handle_key(plain('a')).unwrap();

    live.handle_key(plain('j')).unwrap();
    live.handle_key(plain('j')).unwrap();
    live.handle_key(plain('d')).unwrap();

    let got: Vec<String> = recorded.tasks.iter().map(|t| t.title.clone()).collect();
    let want: Vec<String> = live.tasks.iter().map(|t| t.title.clone()).collect();
    assert_eq!(got, want);
    assert_eq!(recorded.selected_index, live.selected_index);
}

#[test]
fn recording_captures_keys() {
    let mut state = fresh_state();
    for t in ["m0", "m1", "m2"] {
        state.add_task(t.to_string()).unwrap();
    }
    state.selected_index = 0;
    // q a starts recording into register a
    state.handle_key(plain('q')).unwrap();
    state.handle_key(plain('a')).unwrap();
    assert_eq!(state.macro_recording, Some('a'));
    state.handle_key(plain('j')).unwrap();
    state.handle_key(plain('j')).unwrap();
    // q stops recording
    state.handle_key(plain('q')).unwrap();
    assert_eq!(state.macro_recording, None);
    assert_eq!(state.selected_index, 2);
    let reg = state.macros.iter().find(|m| m.register == 'a').unwrap();
    assert_eq!(reg.events, vec![plain('j'), plain('j')]);
}

#[test]
fn insert_mode_types_and_commits() {
    let mut state = fresh_state();
    let o = plain('o');
    state.handle_key(o).unwrap();
    assert_eq!(state.mode, Mode::Insert);
    for c in "hi".chars() {
        state.handle_key(plain(c)).unwrap();
    }
    state
        .handle_key(KeyCombination { code: KeyCode::Enter, ctrl: false, alt: false, shift: false })
        .unwrap();
    assert_eq!(state.mode, Mode::Normal);
    assert_eq!(state.tasks.len(), 1);
    assert_eq!(state.tasks[0].title, "hi");
}

#[test]
fn command_mode_runs_colon_commands() {
    let mut state = fresh_state();
    state.handle_key(plain(':')).unwrap();
    assert_eq!(state.mode, Mode::Command);
    state.handle_key(plain('q')).unwrap();
    state
        .handle_key(KeyCombination { code: KeyCode::Enter, ctrl: false, alt: false, shift: false })
        .unwrap();
    assert_eq!(state.mode, Mode::Normal);
    assert!(!state.running);
}

#[test]
fn lua_command_queues_script_effect() {
    let mut state = fresh_state();
    state.execute_command("lua print(1)").unwrap();
    let effects = state.take_effects();
    assert_eq!(effects.len(), 1);
    match &effects[0] {
        Effect::Script(code) => assert_eq!(code, "print(1)"),
        _ => panic!("expected a script effect"),
    }
    assert_eq!(state.effects.len(), 0);
}

#[test]
fn creation_hook_is_queued() {
    let mut state = fresh_state();
    state.add_task("hooked".to_string()).unwrap();
    let effects = state.take_effects();
    assert_eq!(effects.len(), 1);
    match &effects[0] {
        Effect::Hook(HookKind::TaskCreate, t) => assert_eq!(t.title, "hooked"),
        _ => panic!("expected a creation hook"),
    }
}

#[test]
fn themes_compose() {
    let css = taskvim::themes::get_theme_css("Dark");
    let common = taskvim::themes::common_css();
    let dark = taskvim::themes::dark_overrides();
    assert!(css.starts_with(dark.as_str()));
    assert!(css.ends_with(common.as_str()));
    assert_eq!(taskvim::themes::get_theme_css("System"), common);
    assert_eq!(taskvim::themes::get_all_themes(), vec!["System", "Dark"]);
}

#[test]
fn status_names_round_trip() {
    assert_eq!(taskvim::domain::TaskStatus::Doing.name(), "Doing");
    assert_eq!(
        taskvim::domain::TaskStatus::from_name("Archived"),
        taskvim::domain::TaskStatus::Archived
    );
    assert_eq!(
        taskvim::domain::TaskStatus::from_name("anything"),
        taskvim::domain::TaskStatus::Todo
    );
}
