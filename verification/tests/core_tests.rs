use taskvim::domain::TaskStatus;
use taskvim::state::{AppState, Config, SortBy};
use taskvim::store::TaskStore;

fn fresh_state() -> AppState {
    AppState::new(TaskStore::new(), Config::new_default()).unwrap()
}

#[test]
fn test_task_creation_and_positioning() {
    let mut state = fresh_state();

    state.add_task("Task 1".to_string()).unwrap();
    state.add_task("Task 2".to_string()).unwrap();

    assert_eq!(state.tasks.len(), 2);
    assert_eq!(state.tasks[0].title, "Task 1");
    assert_eq!(state.tasks[1].title, "Task 2");
    assert_eq!(state.tasks[1].position, state.tasks[0].position + 1);

    state.selected_index = 0;
    state.add_task_below("Task 1.5".to_string()).unwrap();

    assert_eq!(state.tasks.len(), 3);
    assert_eq!(state.tasks[1].title, "Task 1.5");
    assert_eq!(state.tasks[2].title, "Task 2");
}

#[test]
fn test_task_editing() {
    let mut state = fresh_state();

    state.add_task("Original Title".to_string()).unwrap();
    let id = state.tasks[0].id;

    state.selected_index = 0;
    state.start_editing();

    assert_eq!(state.mode, taskvim::keymap::Mode::Insert);
    assert_eq!(state.command_buffer, "Original Title");
    assert_eq!(state.editing_task_id, Some(id));

    state.command_buffer = "Edited Title".to_string();
    state.commit_edit().unwrap();

    assert_eq!(state.tasks[0].title, "Edited Title");
    assert_eq!(state.editing_task_id, None);
}

#[test]
fn add_below_selects_new_task() {
    let mut state = fresh_state();
    state.add_task("a".to_string()).unwrap();
    state.add_task("b".to_string()).unwrap();
    state.add_task("c".to_string()).unwrap();
    state.selected_index = 1;
    state.add_task_below("between".to_string()).unwrap();
    assert_eq!(state.selected_index, 2);
    assert_eq!(state.tasks[state.selected_index].title, "between");
}

#[test]
fn add_above_takes_selected_position() {
    let mut state = fresh_state();
    state.add_task("a".to_string()).unwrap();
    state.add_task("b".to_string()).unwrap();
    state.selected_index = 1;
    let old_pos = state.tasks[1].position;
    state.add_task_above("up".to_string()).unwrap();
    assert_eq!(state.tasks[1].title, "up");
    assert_eq!(state.tasks[1].position, old_pos);
    assert_eq!(state.tasks[2].title, "b");
    assert_eq!(state.tasks[2].position, old_pos + 1);
}

#[test]
fn positions_stay_distinct_over_add_and_delete() {
    let mut state = fresh_state();
    state.add_task("a".to_string()).unwrap();
    state.add_task("b".to_string()).unwrap();
    state.selected_index = 0;
    state.add_task_below("c".to_string()).unwrap();
    state.add_task_above("d".to_string()).unwrap();
    state.selected_index = 1;
    state.delete_selected_task().unwrap();
    state.selected_index = 0;
    state.add_task_below("e".to_string()).unwrap();
    let mut positions: Vec<i64> = state.tasks.iter().map(|t| t.position).collect();
    let n = positions.len();
    positions.sort();
    positions.dedup();
    assert_eq!(positions.len(), n);
}

#[test]
fn status_cycle_has_period_four() {
    let mut s = TaskStatus::Todo;
    let start = s;
    s = s.cycle();
    assert_eq!(s, TaskStatus::Doing);
    s = s.cycle();
    assert_eq!(s, TaskStatus::Done);
    s = s.cycle();
    assert_eq!(s, TaskStatus::Archived);
    s = s.cycle();
    assert_eq!(s, start);
}

#[test]
fn undo_then_redo_restores_mutation() {
    let mut state = fresh_state();
    state.add_task("t".to_string()).unwrap();
    state.selected_index = 0;
    assert_eq!(state.tasks[0].status, TaskStatus::Todo);

    state.cycle_status().unwrap();
    assert_eq!(state.tasks[0].status, TaskStatus::Doing);

    state.undo().unwrap();
    assert_eq!(state.tasks[0].status, TaskStatus::Todo);

    state.redo().unwrap();
    assert_eq!(state.tasks[0].status, TaskStatus::Doing);

    // redo followed immediately by undo restores the pre-mutation state
    state.undo().unwrap();
    assert_eq!(state.tasks[0].status, TaskStatus::Todo);
}

#[test]
fn new_mutation_clears_redo_log() {
    let mut state = fresh_state();
    state.add_task("t".to_string()).unwrap();
    state.selected_index = 0;
    state.cycle_status().unwrap();
    state.undo().unwrap();
    assert_eq!(state.tasks[0].status, TaskStatus::Todo);

    // a fresh tracked mutation invalidates the redo history
    state.increase_priority().unwrap();
    let p = state.tasks[0].priority;
    state.redo().unwrap();
    assert_eq!(state.tasks[0].priority, p);
    assert_eq!(state.tasks[0].status, TaskStatus::Todo);
}

#[test]
fn priority_clamps_between_one_and_five() {
    let mut state = fresh_state();
    state.add_task("t".to_string()).unwrap();
    state.selected_index = 0;
    assert_eq!(state.tasks[0].priority, 3);
    for _ in 0..10 {
        state.increase_priority().unwrap();
    }
    assert_eq!(state.tasks[0].priority, 5);
    for _ in 0..10 {
        state.decrease_priority().unwrap();
    }
    assert_eq!(state.tasks[0].priority, 1);
}

#[test]
fn visual_deletion_removes_range_and_clamps() {
    let mut state = fresh_state();
    for t in ["r0", "r1", "r2", "r3", "r4"] {
        state.add_task(t.to_string()).unwrap();
    }
    state.selected_index = 3;
    state.selection_anchor = Some(1);
    state.mode = taskvim::keymap::Mode::Visual;
    state.delete_selected_task().unwrap();
    assert_eq!(state.mode, taskvim::keymap::Mode::Normal);
    assert_eq!(state.selection_anchor, None);
    assert_eq!(state.tasks.len(), 2);
    assert_eq!(state.tasks[0].title, "r0");
    assert_eq!(state.tasks[1].title, "r4");
    assert!(state.selected_index <= 1);
}

#[test]
fn yank_and_paste_copies_below() {
    let mut state = fresh_state();
    state.add_task("orig".to_string()).unwrap();
    state.selected_index = 0;
    state.yank_selected();
    state.paste_below().unwrap();
    assert_eq!(state.tasks.len(), 2);
    assert_eq!(state.tasks[1].title, "orig");
    assert_ne!(state.tasks[0].id, state.tasks[1].id);
    assert_eq!(state.selected_index, 1);
}

#[test]
fn search_is_case_insensitive() {
    let mut state = fresh_state();
    state.add_task("Hello World".to_string()).unwrap();
    state.add_task("other".to_string()).unwrap();
    state.search_query = Some("WORLD".to_string());
    state.reload_tasks().unwrap();
    assert_eq!(state.tasks.len(), 1);
    assert_eq!(state.tasks[0].title, "Hello World");
}

#[test]
fn filter_command_applies_and_clears() {
    let mut state = fresh_state();
    state.add_task("low".to_string()).unwrap();
    state.selected_index = 0;
    for _ in 0..2 {
        state.decrease_priority().unwrap();
    }
    state.add_task("high".to_string()).unwrap();
    state.execute_command("filter priority>=2").unwrap();
    assert_eq!(state.tasks.len(), 1);
    assert_eq!(state.tasks[0].title, "high");
    state.execute_command("filter").unwrap();
    assert_eq!(state.tasks.len(), 2);
}

#[test]
fn invalid_filter_keeps_previous_one() {
    let mut state = fresh_state();
    state.add_task("a".to_string()).unwrap();
    state.execute_command("filter status=Todo").unwrap();
    let before = state.filter_string.clone();
    let r = state.execute_command("filter bogus=1");
    assert!(r.is_err());
    assert_eq!(state.filter_string, before);
}

#[test]
fn sort_commands_reorder_view() {
    let mut state = fresh_state();
    state.add_task("first".to_string()).unwrap();
    state.add_task("second".to_string()).unwrap();
    state.selected_index = 1;
    state.increase_priority().unwrap();
    state.execute_command("sort priority").unwrap();
    assert_eq!(state.sort_by, SortBy::Priority);
    assert_eq!(state.tasks[0].title, "second");
    state.execute_command("sort position").unwrap();
    assert_eq!(state.tasks[0].title, "first");
}

#[test]
fn collapse_hides_project_tasks() {
    let mut state = fresh_state();
    state.add_task("inproj".to_string()).unwrap();
    // give the task a project through the store contract
    let mut t = state.tasks[0].clone();
    t.project = Some("home".to_string());
    state.store.save_task(&t);
    state.reload_tasks().unwrap();
    state.add_task("free".to_string()).unwrap();
    state.selected_index = 0;
    assert_eq!(state.tasks.len(), 2);
    state.toggle_collapse().unwrap();
    assert_eq!(state.tasks.len(), 1);
    assert_eq!(state.tasks[0].title, "free");
}

#[test]
fn project_navigation_sets_filter() {
    let mut state = fresh_state();
    state.add_task("one".to_string()).unwrap();
    let mut t = state.tasks[0].clone();
    t.project = Some("alpha".to_string());
    state.store.save_task(&t);
    state.add_task("two".to_string()).unwrap();
    let mut u = state.tasks.iter().find(|x| x.title == "two").unwrap().clone();
    u.project = Some("beta".to_string());
    state.store.save_task(&u);
    state.reload_tasks().unwrap();
    state.next_project().unwrap();
    assert!(state.filter_string.is_some());
    let f = state.filter_string.clone().unwrap();
    assert!(f == "project=alpha" || f == "project=beta");
    assert_eq!(state.selected_index, 0);
}
