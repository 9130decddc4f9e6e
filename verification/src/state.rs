use vstd::prelude::*;
use vstd::multiset::Multiset;

use crate::actions::Action;
use crate::domain::{Task, TaskView, TaskStatus, priority_valid};
use crate::error::TaskVimError;
use crate::input::{KeyCombination, KeyCode};
use crate::keymap::{Keymap, Mode};
use crate::query::{Filter, FilterView, spec_parse};
use crate::store::{TaskStore, SortKey, views_of, matching, active_preds, preds_valid,
    sorted_tasks, has_id, remove_id, remove_ids, log_remove, upsert_post, sort_tasks, eval_preds,
    task_matches, key_le};
use crate::text::{lower_of, lowercase, contains_seq, str_eq, str_contains, string_push,
    string_pop, str_starts_with, match_at};

verus! {

/// The sort orders the view can be held in.
#[derive(Debug, Clone, Copy, PartialEq, Eq, Structural)]
pub enum SortBy {
    Position,
    Priority,
    CreatedAt,
}

/// What confirming the insert buffer does.
#[derive(Debug, Clone, Copy, PartialEq, Eq, Structural)]
pub enum InsertAction {
    AddEnd,
    AddBelow,
    AddAbove,
    Edit,
}

/// The pending first key of a multi-key sequence, a single tagged value:
/// at most one prefix can be pending at a time.
#[derive(Debug, Clone, Copy, PartialEq, Eq, Structural)]
pub enum PendingPrefix {
    Idle,
    PrefixG,
    PrefixZ,
    PrefixY,
    PrefixAt,
    PrefixQ,
}

/// The scripting hooks the dispatcher fires.
#[derive(Debug, Clone, Copy, PartialEq, Eq, Structural)]
pub enum HookKind {
    TaskCreate,
    TaskUpdate,
    StatusChange,
}

/// An outward request the dispatcher has queued: a fire-and-forget
/// scripting hook with the task it concerns, or a verbatim piece of
/// script text. The embedding host drains these; their failures never
/// affect the state that produced them.
#[derive(Debug)]
pub enum Effect {
    Hook(HookKind, Task),
    Script(String),
}

/// The mathematical value of an effect.
pub enum EffectView {
    HookFired(HookKind, TaskView),
    ScriptRun(Seq<char>),
}

pub open spec fn effect_view(e: Effect) -> EffectView {
    match e {
        Effect::Hook(k, t) => EffectView::HookFired(k, t@),
        Effect::Script(s) => EffectView::ScriptRun(s@),
    }
}

pub open spec fn effects_view(es: Seq<Effect>) -> Seq<EffectView> {
    es.map_values(|e: Effect| effect_view(e))
}

/// User-adjustable configuration.
#[derive(Debug, Clone)]
pub struct Config {
    pub theme: String,
    pub default_priority: i32,
    pub show_sidebar: bool,
    pub keymap: Keymap,
}

impl Config {
    /// The built-in configuration: default theme, priority 3, sidebar
    /// shown, built-in keymap.
    pub fn new_default() -> (r: Config)
        ensures
            r.theme@ == "default"@,
            r.default_priority == 3,
            r.show_sidebar,
            r.keymap.entries@ == crate::keymap::default_entries(),
    {
        Config {
            theme: String::from_str("default"),
            default_priority: 3,
            show_sidebar: true,
            keymap: Keymap::new(),
        }
    }

    /// Set the default priority of newly created tasks; values outside
    /// the valid range are rejected.
    pub fn set_default_priority(&mut self, p: i32) -> (r: bool)
        ensures
            r == priority_valid(p),
            *final(self) == (if priority_valid(p) {
                Config { default_priority: p, ..*old(self) }
            } else {
                *old(self)
            }),
    {
        if 1 <= p && p <= 5 {
            self.default_priority = p;
            true
        } else {
            false
        }
    }
}

/// A macro register: recorded raw key events under a one-character name.
#[derive(Debug, Clone)]
pub struct MacroReg {
    pub register: char,
    pub events: Vec<KeyCombination>,
}

/// The views of the macro registers.
pub open spec fn macros_view(ms: Seq<MacroReg>) -> Seq<(char, Seq<KeyCombination>)> {
    ms.map_values(|m: MacroReg| (m.register, m.events@))
}

/// The deep views of a string vector.
pub open spec fn strings_view(v: Seq<String>) -> Seq<Seq<char>> {
    v.map_values(|s: String| s@)
}

/// The view of an optional string.
pub open spec fn opt_view(o: Option<String>) -> Option<Seq<char>> {
    match o {
        Some(s) => Some(s@),
        None => None,
    }
}

/// Whether a task is visible: its project is not collapsed, and when a
/// search is active its lower-cased title or description contains the
/// lower-cased query.
pub open spec fn vis(t: TaskView, collapsed: Seq<Seq<char>>, search: Option<Seq<char>>) -> bool {
    &&& match t.project {
        Some(p) => !collapsed.contains(p@),
        None => true,
    }
    &&& match search {
        Some(q) => contains_seq(lower_of(t.title@), lower_of(q)) || (match t.description {
            Some(d) => contains_seq(lower_of(d@), lower_of(q)),
            None => false,
        }),
        None => true,
    }
}

/// The visible subsequence of a task sequence.
pub open spec fn visible_seq(
    ts: Seq<TaskView>,
    collapsed: Seq<Seq<char>>,
    search: Option<Seq<char>>,
) -> Seq<TaskView> {
    ts.filter(|tv: TaskView| vis(tv, collapsed, search))
}

/// The visible part of a task multiset.
pub open spec fn visible_mset(
    m: Multiset<TaskView>,
    collapsed: Seq<Seq<char>>,
    search: Option<Seq<char>>,
) -> Multiset<TaskView> {
    m.filter(|tv: TaskView| vis(tv, collapsed, search))
}

proof fn lemma_visible_push(
    ts: Seq<TaskView>,
    x: TaskView,
    collapsed: Seq<Seq<char>>,
    search: Option<Seq<char>>,
)
    ensures
        visible_seq(ts.push(x), collapsed, search) == (if vis(x, collapsed, search) {
            visible_seq(ts, collapsed, search).push(x)
        } else {
            visible_seq(ts, collapsed, search)
        }),
{
    broadcast use Seq::lemma_filter_push;

}

/// Filtering to the visible tasks at the sequence level or at the
/// multiset level gives the same multiset.
proof fn lemma_visible_seq_mset(
    ts: Seq<TaskView>,
    collapsed: Seq<Seq<char>>,
    search: Option<Seq<char>>,
)
    ensures
        visible_seq(ts, collapsed, search).to_multiset() == visible_mset(
            ts.to_multiset(),
            collapsed,
            search,
        ),
    decreases ts.len(),
{
    broadcast use vstd::seq_lib::group_to_multiset_ensures;
    broadcast use vstd::multiset::group_multiset_axioms;

    if ts.len() == 0 {
        assert(visible_seq(ts, collapsed, search) =~= Seq::<TaskView>::empty()) by {
            reveal(Seq::filter);
        }
        assert(ts.to_multiset() =~= Multiset::<TaskView>::empty());
        assert(visible_seq(ts, collapsed, search).to_multiset() =~= visible_mset(
            ts.to_multiset(),
            collapsed,
            search,
        ));
    } else {
        let pre = ts.drop_last();
        let x = ts.last();
        lemma_visible_seq_mset(pre, collapsed, search);
        lemma_visible_push(pre, x, collapsed, search);
        assert(pre.push(x) =~= ts);
        assert(ts.to_multiset() =~= pre.to_multiset().insert(x)) by {
            assert(pre.push(x).to_multiset() =~= pre.to_multiset().insert(x));
        }
        if vis(x, collapsed, search) {
            assert(visible_seq(ts, collapsed, search).to_multiset() =~= visible_seq(
                pre,
                collapsed,
                search,
            ).to_multiset().insert(x)) by {
                assert(visible_seq(pre, collapsed, search).push(x).to_multiset() =~= visible_seq(
                    pre,
                    collapsed,
                    search,
                ).to_multiset().insert(x));
            }
        }
        assert(visible_mset(ts.to_multiset(), collapsed, search) =~= (if vis(
            x,
            collapsed,
            search,
        ) {
            visible_mset(pre.to_multiset(), collapsed, search).insert(x)
        } else {
            visible_mset(pre.to_multiset(), collapsed, search)
        }));
        assert(visible_seq(ts, collapsed, search).to_multiset() =~= visible_mset(
            ts.to_multiset(),
            collapsed,
            search,
        ));
    }
}

/// A visible subsequence of an ordered sequence stays ordered.
proof fn lemma_visible_sorted(
    ts: Seq<TaskView>,
    collapsed: Seq<Seq<char>>,
    search: Option<Seq<char>>,
    k: SortKey,
)
    requires
        sorted_tasks(k, ts),
    ensures
        sorted_tasks(k, visible_seq(ts, collapsed, search)),
    decreases ts.len(),
{
    reveal(Seq::filter);
    if ts.len() > 0 {
        let pre = ts.drop_last();
        assert forall|i: int, j: int| 0 <= i < j < pre.len() implies key_le(
            k,
            #[trigger] pre[i],
            #[trigger] pre[j],
        ) by {
            assert(pre[i] == ts[i] && pre[j] == ts[j]);
        }
        lemma_visible_sorted(pre, collapsed, search, k);
        lemma_visible_push(pre, ts.last(), collapsed, search);
        assert(pre.push(ts.last()) =~= ts);
        let f = visible_seq(ts, collapsed, search);
        let fp = visible_seq(pre, collapsed, search);
        assert forall|i: int, j: int| 0 <= i < j < f.len() implies key_le(
            k,
            #[trigger] f[i],
            #[trigger] f[j],
        ) by {
            if vis(ts.last(), collapsed, search) && j == f.len() - 1 {
                assert(f[i] == fp[i]);
                assert(fp.contains(fp[i])) by {
                    assert(fp[i] == f[i]);
                }
                lemma_visible_subset(pre, collapsed, search);
                assert(pre.contains(fp[i]));
                let t = choose|t: int| 0 <= t < pre.len() && pre[t] == fp[i];
                assert(ts[t] == fp[i] && ts[ts.len() - 1] == ts.last());
            } else {
                assert(f[i] == fp[i] && f[j] == fp[j]);
            }
        }
    }
}

proof fn lemma_visible_subset(
    ts: Seq<TaskView>,
    collapsed: Seq<Seq<char>>,
    search: Option<Seq<char>>,
)
    ensures
        forall|x: TaskView| #[trigger]
            visible_seq(ts, collapsed, search).contains(x) ==> ts.contains(x),
    decreases ts.len(),
{
    reveal(Seq::filter);
    if ts.len() > 0 {
        let pre = ts.drop_last();
        lemma_visible_subset(pre, collapsed, search);
        lemma_visible_push(pre, ts.last(), collapsed, search);
        assert(pre.push(ts.last()) =~= ts);
        let f = visible_seq(ts, collapsed, search);
        let fp = visible_seq(pre, collapsed, search);
        assert forall|x: TaskView| #[trigger] f.contains(x) implies ts.contains(x) by {
            let i = choose|i: int| 0 <= i < f.len() && f[i] == x;
            if vis(ts.last(), collapsed, search) && i == f.len() - 1 {
                assert(ts[ts.len() - 1] == ts.last());
            } else {
                assert(fp.contains(x)) by {
                    assert(fp[i] == x);
                }
                assert(pre.contains(x));
                let t = choose|t: int| 0 <= t < pre.len() && pre[t] == x;
                assert(ts[t] == x);
            }
        }
    }
}

/// The sort key a view sort order uses.
pub open spec fn key_of_sort(sb: SortBy) -> SortKey {
    match sb {
        SortBy::Position => SortKey::Position,
        SortBy::Priority => SortKey::PriorityDesc,
        SortBy::CreatedAt => SortKey::CreatedAt,
    }
}

/// Where the selection lands after the view takes a new length.
pub open spec fn clamp_sel(sel: int, len: int) -> int {
    if len == 0 {
        0
    } else if sel >= len {
        len - 1
    } else {
        sel
    }
}

/// The central state of the interaction engine: the derived task view,
/// the selection, the mode machine, the store, and the transient
/// interaction state.
pub struct AppState {
    pub tasks: Vec<Task>,
    pub selected_index: usize,
    pub mode: Mode,
    pub insert_action: InsertAction,
    pub command_buffer: String,
    pub store: TaskStore,
    pub running: bool,
    pub sort_by: SortBy,
    pub filter_string: Option<String>,
    pub pending: PendingPrefix,
    pub selection_anchor: Option<usize>,
    pub editing_task_id: Option<u128>,
    pub config: Config,
    pub collapsed_projects: Vec<String>,
    pub yanked_task: Option<Task>,
    pub macro_recording: Option<char>,
    pub macros: Vec<MacroReg>,
    pub search_query: Option<String>,
    pub effects: Vec<Effect>,
}

/// The view the dispatcher must hold after a reload: ordered by the
/// active sort, and holding exactly the stored tasks that match the
/// active filter and are visible.
pub open spec fn view_ok(s: AppState) -> bool {
    &&& sorted_tasks(key_of_sort(s.sort_by), views_of(s.tasks@))
    &&& views_of(s.tasks@).to_multiset() == visible_mset(
        matching(s.store.tasks_view(), active_preds(opt_view(s.filter_string))).to_multiset(),
        strings_view(s.collapsed_projects@),
        opt_view(s.search_query),
    )
}

/// Well-formedness of the dispatcher state.
pub open spec fn wf(s: AppState) -> bool {
    &&& s.store.wf()
    &&& s.tasks@.len() > 0 ==> s.selected_index < s.tasks@.len()
    &&& s.tasks@.len() == 0 ==> s.selected_index == 0
    &&& priority_valid(s.config.default_priority)
    &&& preds_valid(active_preds(opt_view(s.filter_string)))
    &&& (s.yanked_task matches Some(t) ==> priority_valid(t@.priority))
    &&& (s.macro_recording matches Some(reg) ==> macros_view(s.macros@).len() > 0 && macros_view(
        s.macros@,
    )[0].0 == reg)
    &&& view_ok(s)
}

/// What every dispatcher operation needs of the state around the view:
/// the weaker precondition `reload_tasks` rebuilds a well-formed state
/// from.
pub open spec fn base_ok(s: AppState) -> bool {
    &&& s.store.wf()
    &&& priority_valid(s.config.default_priority)
    &&& preds_valid(active_preds(opt_view(s.filter_string)))
    &&& (s.yanked_task matches Some(t) ==> priority_valid(t@.priority))
    &&& (s.macro_recording matches Some(reg) ==> macros_view(s.macros@).len() > 0 && macros_view(
        s.macros@,
    )[0].0 == reg)
}

/// The largest position among the given tasks, 0 when there are none.
pub open spec fn max_pos(ts: Seq<TaskView>) -> int
    decreases ts.len(),
{
    if ts.len() == 0 {
        0
    } else if ts.len() == 1 {
        ts[0].position as int
    } else {
        let m = max_pos(ts.drop_last());
        if ts.last().position as int > m {
            ts.last().position as int
        } else {
            m
        }
    }
}

/// The position of the selected task, 0 on an empty view.
pub open spec fn cur_pos(s: AppState) -> i64 {
    if s.tasks@.len() > 0 {
        s.tasks@[s.selected_index as int]@.position
    } else {
        0
    }
}

/// The shape of a task created by an add operation.
pub open spec fn created_shape(
    nt: TaskView,
    id: u128,
    title: Seq<char>,
    prio: i32,
    pos: int,
) -> bool {
    &&& nt.id == id
    &&& nt.title@ == title
    &&& nt.description is None
    &&& nt.status == TaskStatus::Todo
    &&& nt.priority == prio
    &&& nt.due_date is None
    &&& nt.created_at == nt.updated_at
    &&& nt.tags =~= Seq::<String>::empty()
    &&& nt.project is None
    &&& nt.recurrence_rule is None
    &&& nt.dependencies =~= Seq::<u128>::empty()
    &&& nt.position as int == pos
}

/// The parts of the state every task-changing operation leaves alone,
/// and the parts a reload rebuilds.
pub open spec fn task_op_frame(pre: AppState, post: AppState) -> bool {
    &&& post == (AppState {
        tasks: post.tasks,
        selected_index: post.selected_index,
        store: post.store,
        effects: post.effects,
        ..pre
    })
    &&& view_ok(post)
}

/// Shifting positions moves no identifier.
proof fn lemma_shift_keeps_ids(ts: Seq<TaskView>, cur: i64, inclusive: bool)
    ensures
        forall|id: u128|
            #![trigger has_id(crate::store::shift_ge(ts, cur), id)]
            #![trigger has_id(crate::store::shift_gt(ts, cur), id)]
            has_id(
                if inclusive {
                    crate::store::shift_ge(ts, cur)
                } else {
                    crate::store::shift_gt(ts, cur)
                },
                id,
            ) == has_id(ts, id),
{
    let sh = if inclusive {
        crate::store::shift_ge(ts, cur)
    } else {
        crate::store::shift_gt(ts, cur)
    };
    assert forall|id: u128| #[trigger] has_id(sh, id) == has_id(ts, id) by {
        assert(forall|i: int| 0 <= i < ts.len() ==> (#[trigger] sh[i]).id == ts[i].id);
        if has_id(sh, id) {
            let i = choose|i: int| 0 <= i < sh.len() && sh[i].id == id;
            assert(ts[i].id == id);
        }
        if has_id(ts, id) {
            let i = choose|i: int| 0 <= i < ts.len() && ts[i].id == id;
            assert(sh[i].id == id);
        }
    }
}

/// How `add_task` changes the state: a task with the given identifier
/// and title appears at the end of the ordering, the creation hook is
/// queued, the view is reloaded, and the logs stay untouched.
pub open spec fn rel_add_task(
    pre: AppState,
    post: AppState,
    id: u128,
    title: Seq<char>,
    r: Result<(), TaskVimError>,
) -> bool {
    let mp = max_pos(views_of(pre.tasks@));
    if has_id(pre.store.tasks_view(), id) || mp == i64::MAX {
        &&& (r matches Err(e) && e is Internal)
        &&& post == pre
    } else {
        &&& r is Ok
        &&& exists|nt: TaskView|
            #[trigger] created_shape(nt, id, title, pre.config.default_priority, mp + 1)
                && post.store.tasks_view() == pre.store.tasks_view().push(nt) && effects_view(
                post.effects@,
            ) == effects_view(pre.effects@).push(EffectView::HookFired(HookKind::TaskCreate, nt))
        &&& post.store.history@ == pre.store.history@
        &&& post.store.redo@ == pre.store.redo@
        &&& post.store.next_seq == pre.store.next_seq
        &&& task_op_frame(pre, post)
        &&& post.selected_index as int == clamp_sel(
            pre.selected_index as int,
            post.tasks@.len() as int,
        )
    }
}

/// How `add_task_below` changes the state: stored positions above the
/// selected task's move up one, the new task takes the freed slot, the
/// creation hook is queued, and the selection advances one row.
pub open spec fn rel_add_below(
    pre: AppState,
    post: AppState,
    id: u128,
    title: Seq<char>,
    r: Result<(), TaskVimError>,
) -> bool {
    let cur = cur_pos(pre);
    let overflow = cur == i64::MAX || exists|i: int|
        0 <= i < pre.store.tasks_view().len() && (#[trigger] pre.store.tasks_view()[i]).position
            == i64::MAX && pre.store.tasks_view()[i].position > cur;
    if has_id(pre.store.tasks_view(), id) || overflow {
        &&& (r matches Err(e) && e is Internal)
        &&& post == pre
    } else {
        &&& r is Ok
        &&& exists|nt: TaskView|
            #[trigger] created_shape(nt, id, title, pre.config.default_priority, cur + 1)
                && post.store.tasks_view() == crate::store::shift_gt(
                pre.store.tasks_view(),
                cur,
            ).push(nt) && effects_view(post.effects@) == effects_view(pre.effects@).push(
                EffectView::HookFired(HookKind::TaskCreate, nt),
            )
        &&& post.store.history@ == pre.store.history@
        &&& post.store.redo@ == pre.store.redo@
        &&& post.store.next_seq == pre.store.next_seq
        &&& task_op_frame(pre, post)
        &&& post.selected_index as int == clamp_sel(
            pre.selected_index as int + 1,
            post.tasks@.len() as int,
        )
    }
}

/// How `add_task_above` changes the state: stored positions at or above
/// the selected task's move up one, the new task takes the selected
/// task's old position, and the selection stays put.
pub open spec fn rel_add_above(
    pre: AppState,
    post: AppState,
    id: u128,
    title: Seq<char>,
    r: Result<(), TaskVimError>,
) -> bool {
    let cur = cur_pos(pre);
    let overflow = exists|i: int|
        0 <= i < pre.store.tasks_view().len() && (#[trigger] pre.store.tasks_view()[i]).position
            == i64::MAX && pre.store.tasks_view()[i].position >= cur;
    if has_id(pre.store.tasks_view(), id) || overflow {
        &&& (r matches Err(e) && e is Internal)
        &&& post == pre
    } else {
        &&& r is Ok
        &&& exists|nt: TaskView|
            #[trigger] created_shape(nt, id, title, pre.config.default_priority, cur as int)
                && post.store.tasks_view() == crate::store::shift_ge(
                pre.store.tasks_view(),
                cur,
            ).push(nt) && effects_view(post.effects@) == effects_view(pre.effects@).push(
                EffectView::HookFired(HookKind::TaskCreate, nt),
            )
        &&& post.store.history@ == pre.store.history@
        &&& post.store.redo@ == pre.store.redo@
        &&& post.store.next_seq == pre.store.next_seq
        &&& task_op_frame(pre, post)
        &&& post.selected_index as int == clamp_sel(
            pre.selected_index as int,
            post.tasks@.len() as int,
        )
    }
}

/// The index of the first task with the identifier, or -1.
pub open spec fn find_id(ts: Seq<TaskView>, id: u128) -> int
    decreases ts.len(),
{
    if ts.len() == 0 {
        -1
    } else if ts[0].id == id {
        0
    } else {
        let r = find_id(ts.drop_first(), id);
        if r == -1 {
            -1
        } else {
            r + 1
        }
    }
}

proof fn lemma_find_id_at(ts: Seq<TaskView>, id: u128, i: int)
    requires
        0 <= i < ts.len(),
        ts[i].id == id,
        forall|k: int| 0 <= k < i ==> (#[trigger] ts[k]).id != id,
    ensures
        find_id(ts, id) == i,
    decreases i,
{
    if i > 0 {
        assert forall|k: int| 0 <= k < i - 1 implies (#[trigger] ts.drop_first()[k]).id != id by {
            assert(ts.drop_first()[k] == ts[k + 1]);
        }
        assert(ts.drop_first()[i - 1] == ts[i]);
        lemma_find_id_at(ts.drop_first(), id, i - 1);
    }
}

proof fn lemma_find_id_none(ts: Seq<TaskView>, id: u128)
    requires
        forall|k: int| 0 <= k < ts.len() ==> (#[trigger] ts[k]).id != id,
    ensures
        find_id(ts, id) == -1,
    decreases ts.len(),
{
    if ts.len() > 0 {
        assert forall|k: int| 0 <= k < ts.len() - 1 implies (#[trigger] ts.drop_first()[k]).id
            != id by {
            assert(ts.drop_first()[k] == ts[k + 1]);
        }
        lemma_find_id_none(ts.drop_first(), id);
    }
}

/// How a history-tracked in-place mutation changes the store: the prior
/// state is appended to the undo log, the redo log is cleared, and the
/// task is replaced by its mutated state.
pub open spec fn tracked_mutation(
    pres: TaskStore,
    posts: TaskStore,
    pre_t: TaskView,
    post_t: TaskView,
) -> bool {
    &&& posts.history_view() == pres.history_view().push((pres.next_seq, pre_t))
    &&& posts.redo_view() == Seq::<(u64, TaskView)>::empty()
    &&& posts.next_seq == pres.next_seq + 1
    &&& upsert_post(pres.tasks_view(), posts.tasks_view(), post_t)
}

/// The view of a task after an edit of its title.
pub open spec fn edited_title(post_t: TaskView, victim: TaskView, title: Seq<char>) -> bool {
    &&& post_t.id == victim.id
    &&& post_t.title@ == title
    &&& post_t.description == victim.description
    &&& post_t.status == victim.status
    &&& post_t.priority == victim.priority
    &&& post_t.due_date == victim.due_date
    &&& post_t.created_at == victim.created_at
    &&& post_t.tags =~= victim.tags
    &&& post_t.project == victim.project
    &&& post_t.recurrence_rule == victim.recurrence_rule
    &&& post_t.dependencies =~= victim.dependencies
    &&& post_t.position == victim.position
}

/// How `cycle_status` changes the state: the selected task's prior state
/// is recorded, its status advances one step along the cycle, its update
/// instant is refreshed, and the status-change hook is queued.
pub open spec fn rel_cycle(pre: AppState, post: AppState, r: Result<(), TaskVimError>) -> bool {
    if pre.tasks@.len() == 0 {
        r is Ok && post == pre
    } else if pre.store.next_seq == u64::MAX {
        (r matches Err(e) && e is Internal) && post == pre
    } else {
        let victim = pre.tasks@[pre.selected_index as int]@;
        &&& r is Ok
        &&& exists|u: i64|
            #[trigger] tracked_mutation(
                pre.store,
                post.store,
                victim,
                TaskView { status: victim.status.cycled(), updated_at: u, ..victim },
            ) && effects_view(post.effects@) == effects_view(pre.effects@).push(
                EffectView::HookFired(
                    HookKind::StatusChange,
                    TaskView { status: victim.status.cycled(), updated_at: u, ..victim },
                ),
            )
        &&& task_op_frame(pre, post)
        &&& post.selected_index as int == clamp_sel(
            pre.selected_index as int,
            post.tasks@.len() as int,
        )
    }
}

/// How `increase_priority` changes the state: on a selected task below
/// the top priority, its prior state is recorded and its priority rises
/// by one; otherwise nothing changes.
pub open spec fn rel_increase(pre: AppState, post: AppState, r: Result<(), TaskVimError>) -> bool {
    if pre.tasks@.len() == 0 {
        r is Ok && post == pre
    } else {
        let victim = pre.tasks@[pre.selected_index as int]@;
        if victim.priority >= 5 {
            r is Ok && post == pre
        } else if pre.store.next_seq == u64::MAX {
            (r matches Err(e) && e is Internal) && post == pre
        } else {
            &&& r is Ok
            &&& tracked_mutation(
                pre.store,
                post.store,
                victim,
                TaskView { priority: (victim.priority + 1) as i32, ..victim },
            )
            &&& post.effects == pre.effects
            &&& task_op_frame(pre, post)
            &&& post.selected_index as int == clamp_sel(
                pre.selected_index as int,
                post.tasks@.len() as int,
            )
        }
    }
}

/// How `decrease_priority` changes the state: symmetric to the increase,
/// stopping at the bottom priority.
pub open spec fn rel_decrease(pre: AppState, post: AppState, r: Result<(), TaskVimError>) -> bool {
    if pre.tasks@.len() == 0 {
        r is Ok && post == pre
    } else {
        let victim = pre.tasks@[pre.selected_index as int]@;
        if victim.priority <= 1 {
            r is Ok && post == pre
        } else if pre.store.next_seq == u64::MAX {
            (r matches Err(e) && e is Internal) && post == pre
        } else {
            &&& r is Ok
            &&& tracked_mutation(
                pre.store,
                post.store,
                victim,
                TaskView { priority: (victim.priority - 1) as i32, ..victim },
            )
            &&& post.effects == pre.effects
            &&& task_op_frame(pre, post)
            &&& post.selected_index as int == clamp_sel(
                pre.selected_index as int,
                post.tasks@.len() as int,
            )
        }
    }
}

/// How `commit_edit` changes the state: when a task is being edited and
/// still stands in the view, its prior state is recorded, its title
/// becomes the buffer, its update instant is refreshed, and the update
/// hook is queued; the editing marker is cleared in every case.
pub open spec fn rel_commit_edit(
    pre: AppState,
    post: AppState,
    r: Result<(), TaskVimError>,
) -> bool {
    match pre.editing_task_id {
        None => r is Ok && post == pre,
        Some(id) => {
            let fi = find_id(views_of(pre.tasks@), id);
            if fi == -1 {
                r is Ok && post == (AppState { editing_task_id: None, ..pre })
            } else if pre.store.next_seq == u64::MAX {
                (r matches Err(e) && e is Internal) && post == pre
            } else {
                let victim = views_of(pre.tasks@)[fi];
                &&& r is Ok
                &&& exists|post_t: TaskView|
                    #[trigger] tracked_mutation(pre.store, post.store, victim, post_t)
                        && edited_title(post_t, victim, pre.command_buffer@) && effects_view(
                        post.effects@,
                    ) == effects_view(pre.effects@).push(
                        EffectView::HookFired(HookKind::TaskUpdate, post_t),
                    )
                &&& post == (AppState {
                    tasks: post.tasks,
                    selected_index: post.selected_index,
                    store: post.store,
                    effects: post.effects,
                    editing_task_id: None,
                    ..pre
                })
                &&& view_ok(post)
                &&& post.selected_index as int == clamp_sel(
                    pre.selected_index as int,
                    post.tasks@.len() as int,
                )
            }
        },
    }
}

/// The collapse set without one project name.
pub open spec fn remove_name(c: Seq<Seq<char>>, p: Seq<char>) -> Seq<Seq<char>> {
    c.filter(|x: Seq<char>| x != p)
}

/// How `undo` changes the state: the newest undo entry's snapshot
/// becomes the task's stored state again, the state the task had before
/// the undo moves to the redo log when the task is still in the view,
/// and the consumed undo entry disappears.
pub open spec fn rel_undo(pre: AppState, post: AppState, r: Result<(), TaskVimError>) -> bool {
    if pre.store.history_view().len() == 0 {
        r is Ok && post == pre
    } else {
        let entry = pre.store.history_view().last();
        let fi = find_id(views_of(pre.tasks@), entry.1.id);
        if fi >= 0 && pre.store.next_seq == u64::MAX {
            (r matches Err(e) && e is Internal) && post == pre
        } else {
            &&& r is Ok
            &&& upsert_post(pre.store.tasks_view(), post.store.tasks_view(), entry.1)
            &&& post.store.history_view() == log_remove(pre.store.history_view(), entry.0)
            &&& post.store.redo_view() == (if fi >= 0 {
                pre.store.redo_view().push((pre.store.next_seq, views_of(pre.tasks@)[fi]))
            } else {
                pre.store.redo_view()
            })
            &&& post.store.next_seq == (if fi >= 0 {
                (pre.store.next_seq + 1) as u64
            } else {
                pre.store.next_seq
            })
            &&& post.effects == pre.effects
            &&& task_op_frame(pre, post)
            &&& post.selected_index as int == clamp_sel(
                pre.selected_index as int,
                post.tasks@.len() as int,
            )
        }
    }
}

/// How `redo` changes the state: symmetric to `undo`, consuming the
/// newest redo entry and recording the pre-redo state in the undo log.
pub open spec fn rel_redo(pre: AppState, post: AppState, r: Result<(), TaskVimError>) -> bool {
    if pre.store.redo_view().len() == 0 {
        r is Ok && post == pre
    } else {
        let entry = pre.store.redo_view().last();
        let fi = find_id(views_of(pre.tasks@), entry.1.id);
        if fi >= 0 && pre.store.next_seq == u64::MAX {
            (r matches Err(e) && e is Internal) && post == pre
        } else {
            &&& r is Ok
            &&& upsert_post(pre.store.tasks_view(), post.store.tasks_view(), entry.1)
            &&& post.store.redo_view() == log_remove(pre.store.redo_view(), entry.0)
            &&& post.store.history_view() == (if fi >= 0 {
                pre.store.history_view().push((pre.store.next_seq, views_of(pre.tasks@)[fi]))
            } else {
                pre.store.history_view()
            })
            &&& post.store.next_seq == (if fi >= 0 {
                (pre.store.next_seq + 1) as u64
            } else {
                pre.store.next_seq
            })
            &&& post.effects == pre.effects
            &&& task_op_frame(pre, post)
            &&& post.selected_index as int == clamp_sel(
                pre.selected_index as int,
                post.tasks@.len() as int,
            )
        }
    }
}

/// The inclusive view range a visual deletion covers, clamped to the
/// view: from the smaller of anchor and selection to the larger, capped
/// at the last row.
pub open spec fn visual_lo(pre: AppState, a: int) -> int {
    if a < pre.selected_index as int {
        a
    } else {
        pre.selected_index as int
    }
}

pub open spec fn visual_hi(pre: AppState, a: int) -> int {
    let h = if a > pre.selected_index as int {
        a
    } else {
        pre.selected_index as int
    };
    if h >= pre.tasks@.len() {
        pre.tasks@.len() - 1
    } else {
        h
    }
}

/// The identifiers of the viewed rows a visual deletion covers.
pub open spec fn range_ids(pre: AppState, a: int) -> Seq<u128> {
    Seq::new(
        (visual_hi(pre, a) - visual_lo(pre, a) + 1) as nat,
        |k: int| views_of(pre.tasks@)[visual_lo(pre, a) + k].id,
    )
}

/// How `delete_visual_selection` changes the store and view: with an
/// anchor on a non-empty view, exactly the tasks of the covered rows
/// leave the store; mode and anchor are untouched here.
pub open spec fn rel_delete_visual(
    pre: AppState,
    post: AppState,
    r: Result<(), TaskVimError>,
) -> bool {
    match pre.selection_anchor {
        None => r is Ok && post == pre,
        Some(a) => {
            if pre.tasks@.len() == 0 || visual_lo(pre, a as int) >= pre.tasks@.len() {
                r is Ok && post == pre
            } else {
                &&& r is Ok
                &&& post.store.tasks_view() == remove_ids(
                    pre.store.tasks_view(),
                    range_ids(pre, a as int),
                )
                &&& post.store.history@ == pre.store.history@
                &&& post.store.redo@ == pre.store.redo@
                &&& post.store.next_seq == pre.store.next_seq
                &&& post.effects == pre.effects
                &&& task_op_frame(pre, post)
                &&& post.selected_index as int == clamp_sel(
                    pre.selected_index as int,
                    post.tasks@.len() as int,
                )
            }
        },
    }
}

/// How `delete_selected_task` changes the state: in Visual mode the
/// anchored range is deleted and the mode returns to Normal with the
/// anchor cleared; otherwise the selected task alone is deleted.
pub open spec fn rel_delete_selected(
    pre: AppState,
    post: AppState,
    r: Result<(), TaskVimError>,
) -> bool {
    if pre.mode == Mode::Visual {
        exists|mid: AppState|
            #[trigger] rel_delete_visual(pre, mid, r) && post == (AppState {
                mode: Mode::Normal,
                selection_anchor: None,
                ..mid
            })
    } else if pre.tasks@.len() == 0 {
        r is Ok && post == pre
    } else {
        &&& r is Ok
        &&& post.store.tasks_view() == remove_id(
            pre.store.tasks_view(),
            pre.tasks@[pre.selected_index as int]@.id,
        )
        &&& post.store.history@ == pre.store.history@
        &&& post.store.redo@ == pre.store.redo@
        &&& post.store.next_seq == pre.store.next_seq
        &&& post.effects == pre.effects
        &&& task_op_frame(pre, post)
        &&& post.selected_index as int == clamp_sel(
            pre.selected_index as int,
            post.tasks@.len() as int,
        )
    }
}

/// The shape of a pasted task: a copy of the yanked task under a fresh
/// identifier and fresh instants, at the given position.
pub open spec fn pasted_shape(nt: TaskView, y: TaskView, id: u128, pos: int) -> bool {
    &&& nt.id == id
    &&& nt.title == y.title
    &&& nt.description == y.description
    &&& nt.status == y.status
    &&& nt.priority == y.priority
    &&& nt.due_date == y.due_date
    &&& nt.tags =~= y.tags
    &&& nt.project == y.project
    &&& nt.recurrence_rule == y.recurrence_rule
    &&& nt.dependencies =~= y.dependencies
    &&& nt.position as int == pos
}

/// How `paste_below` changes the state: with a yanked task, stored
/// positions above the selected task's move up one and a copy of the
/// yanked task takes the freed slot under a fresh identifier; the redo
/// log is cleared and the selection advances one row.
pub open spec fn rel_paste(
    pre: AppState,
    post: AppState,
    id: u128,
    r: Result<(), TaskVimError>,
) -> bool {
    match pre.yanked_task {
        None => r is Ok && post == pre,
        Some(y) => {
            let cur = cur_pos(pre);
            let overflow = cur == i64::MAX || exists|i: int|
                0 <= i < pre.store.tasks_view().len() && (#[trigger] pre.store.tasks_view()[i]).position
                    == i64::MAX && pre.store.tasks_view()[i].position > cur;
            if has_id(pre.store.tasks_view(), id) || overflow {
                (r matches Err(e) && e is Internal) && post == pre
            } else {
                &&& r is Ok
                &&& exists|nt: TaskView|
                    #[trigger] pasted_shape(nt, y@, id, cur + 1) && post.store.tasks_view()
                        == crate::store::shift_gt(pre.store.tasks_view(), cur).push(nt)
                &&& post.store.history@ == pre.store.history@
                &&& post.store.redo_view() == Seq::<(u64, TaskView)>::empty()
                &&& post.store.next_seq == pre.store.next_seq
                &&& post.effects == pre.effects
                &&& task_op_frame(pre, post)
                &&& post.selected_index as int == clamp_sel(
                    pre.selected_index as int + 1,
                    post.tasks@.len() as int,
                )
            }
        },
    }
}

/// How `toggle_collapse` changes the state: the selected task's project
/// leaves the collapse set if present, joins it if absent, and the view
/// is reloaded; a task without a project changes nothing.
pub open spec fn rel_toggle_collapse(
    pre: AppState,
    post: AppState,
    r: Result<(), TaskVimError>,
) -> bool {
    if pre.tasks@.len() == 0 {
        r is Ok && post == pre
    } else {
        match pre.tasks@[pre.selected_index as int]@.project {
            None => r is Ok && post == pre,
            Some(p) => {
                let c = strings_view(pre.collapsed_projects@);
                &&& r is Ok
                &&& strings_view(post.collapsed_projects@) == (if c.contains(p@) {
                    remove_name(c, p@)
                } else {
                    c.push(p@)
                })
                &&& post == (AppState {
                    tasks: post.tasks,
                    selected_index: post.selected_index,
                    collapsed_projects: post.collapsed_projects,
                    ..pre
                })
                &&& view_ok(post)
                &&& post.selected_index as int == clamp_sel(
                    pre.selected_index as int,
                    post.tasks@.len() as int,
                )
            },
        }
    }
}

proof fn lemma_remove_name_push(c: Seq<Seq<char>>, x: Seq<char>, p: Seq<char>)
    ensures
        remove_name(c.push(x), p) == (if x != p {
            remove_name(c, p).push(x)
        } else {
            remove_name(c, p)
        }),
{
    broadcast use Seq::lemma_filter_push;

}

/// Whether some stored task carries the project name.
pub open spec fn project_in_store(st: TaskStore, x: Seq<char>) -> bool {
    exists|i: int|
        0 <= i < st.tasks_view().len() && ((#[trigger] st.tasks_view()[i]).project matches Some(p)
            && p@ == x)
}

/// A strictly sorted, duplicate-free project list holding exactly the
/// projects of the store.
pub open spec fn projects_spec(st: TaskStore, ps: Seq<Seq<char>>) -> bool {
    &&& forall|i: int, j: int|
        0 <= i < j < ps.len() ==> crate::text::lex_lt(#[trigger] ps[i], #[trigger] ps[j])
    &&& forall|x: Seq<char>| #[trigger] ps.contains(x) <==> project_in_store(st, x)
}

/// The index of a name in a list, or -1.
pub open spec fn idx_of(ps: Seq<Seq<char>>, p: Seq<char>) -> int
    decreases ps.len(),
{
    if ps.len() == 0 {
        -1
    } else if ps[0] == p {
        0
    } else {
        let r = idx_of(ps.drop_first(), p);
        if r == -1 {
            -1
        } else {
            r + 1
        }
    }
}

proof fn lemma_idx_of_at(ps: Seq<Seq<char>>, p: Seq<char>, i: int)
    requires
        0 <= i < ps.len(),
        ps[i] == p,
        forall|k: int| 0 <= k < i ==> (#[trigger] ps[k]) != p,
    ensures
        idx_of(ps, p) == i,
    decreases i,
{
    if i > 0 {
        assert forall|k: int| 0 <= k < i - 1 implies (#[trigger] ps.drop_first()[k]) != p by {
            assert(ps.drop_first()[k] == ps[k + 1]);
        }
        assert(ps.drop_first()[i - 1] == ps[i]);
        lemma_idx_of_at(ps.drop_first(), p, i - 1);
    }
}

proof fn lemma_idx_of_none(ps: Seq<Seq<char>>, p: Seq<char>)
    requires
        forall|k: int| 0 <= k < ps.len() ==> (#[trigger] ps[k]) != p,
    ensures
        idx_of(ps, p) == -1,
    decreases ps.len(),
{
    if ps.len() > 0 {
        assert forall|k: int| 0 <= k < ps.len() - 1 implies (#[trigger] ps.drop_first()[k]) != p
            by {
            assert(ps.drop_first()[k] == ps[k + 1]);
        }
        lemma_idx_of_none(ps.drop_first(), p);
    }
}

/// The project of the selected task, if any.
pub open spec fn selected_project(pre: AppState) -> Option<Seq<char>> {
    if pre.tasks@.len() > 0 {
        match pre.tasks@[pre.selected_index as int]@.project {
            Some(p) => Some(p@),
            None => None,
        }
    } else {
        None
    }
}

/// The project the navigation lands on, over the sorted project list
/// `ps`: the cyclic successor (`step` 1) or predecessor (`step` -1) of
/// the selected task's project, or the first (last) project when there
/// is no current one.
pub open spec fn project_target(pre: AppState, ps: Seq<Seq<char>>, step: int) -> int {
    let fallback = if step == 1 {
        0
    } else {
        ps.len() - 1
    };
    match selected_project(pre) {
        Some(p) => {
            let i = idx_of(ps, p);
            if i >= 0 {
                if step == 1 {
                    if i + 1 < ps.len() {
                        i + 1
                    } else {
                        0
                    }
                } else {
                    if i > 0 {
                        i - 1
                    } else {
                        ps.len() - 1
                    }
                }
            } else {
                fallback
            }
        },
        None => fallback,
    }
}

/// How `next_project` and `prev_project` change the state: over the
/// sorted project list of the whole store, the filter becomes
/// `project=<target>` and the selection moves to the top; a target
/// whose filter expression fails validation leaves the state unchanged
/// and reports the validation error.
pub open spec fn rel_project_nav(
    pre: AppState,
    post: AppState,
    step: int,
    r: Result<(), TaskVimError>,
) -> bool {
    exists|ps: Seq<Seq<char>>|
        #[trigger] projects_spec(pre.store, ps) && (if ps.len() == 0 {
            r is Ok && post == pre
        } else {
            let name = ps[project_target(pre, ps, step)];
            let fexpr = "project="@ + name;
            if preds_valid(spec_parse(fexpr)) {
                &&& r is Ok
                &&& post == (AppState {
                    tasks: post.tasks,
                    selected_index: 0,
                    filter_string: post.filter_string,
                    ..pre
                })
                &&& opt_view(post.filter_string) == Some(fexpr)
                &&& view_ok(post)
            } else {
                (r matches Err(e) && e is Validation) && post == pre
            }
        })
}

/// How `yank_selected` changes the state.
pub open spec fn rel_yank(pre: AppState, post: AppState) -> bool {
    &&& post == (AppState { yanked_task: post.yanked_task, ..pre })
    &&& pre.tasks@.len() > 0 ==> (post.yanked_task matches Some(t) && t@ == pre.tasks@[pre.selected_index as int]@)
    &&& pre.tasks@.len() == 0 ==> post.yanked_task == pre.yanked_task
}

/// How `start_editing` changes the state.
pub open spec fn rel_start_editing(pre: AppState, post: AppState) -> bool {
    if pre.tasks@.len() == 0 {
        post == pre
    } else {
        &&& post == (AppState {
            editing_task_id: Some(pre.tasks@[pre.selected_index as int]@.id),
            command_buffer: post.command_buffer,
            mode: Mode::Insert,
            insert_action: InsertAction::Edit,
            ..pre
        })
        &&& post.command_buffer@ == pre.tasks@[pre.selected_index as int]@.title@
    }
}

/// How `handle_action` changes the state: the single exhaustive table
/// interpreting every action.
pub open spec fn rel_handle_action(
    pre: AppState,
    post: AppState,
    action: Action,
    r: Result<(), TaskVimError>,
) -> bool {
    match action {
        Action::Quit => r is Ok && post == (AppState { running: false, ..pre }),
        Action::MoveDown => r is Ok && post == (AppState {
            selected_index: (if pre.tasks@.len() > 0 && pre.selected_index < pre.tasks@.len() - 1 {
                (pre.selected_index + 1) as usize
            } else {
                pre.selected_index
            }),
            ..pre
        }),
        Action::MoveUp => r is Ok && post == (AppState {
            selected_index: (if pre.selected_index > 0 {
                (pre.selected_index - 1) as usize
            } else {
                0
            }),
            ..pre
        }),
        Action::MoveToTop => r is Ok && post == (AppState { selected_index: 0, ..pre }),
        Action::MoveToBottom => r is Ok && post == (AppState {
            selected_index: (if pre.tasks@.len() > 0 {
                (pre.tasks@.len() - 1) as usize
            } else {
                pre.selected_index
            }),
            ..pre
        }),
        Action::PageDown => r is Ok && post == (AppState {
            selected_index: (if pre.tasks@.len() == 0 {
                0
            } else if pre.selected_index + 10 < pre.tasks@.len() {
                (pre.selected_index + 10) as usize
            } else {
                (pre.tasks@.len() - 1) as usize
            }),
            ..pre
        }),
        Action::PageUp => r is Ok && post == (AppState {
            selected_index: (if pre.selected_index >= 10 {
                (pre.selected_index - 10) as usize
            } else {
                0
            }),
            ..pre
        }),
        Action::Delete => rel_delete_selected(pre, post, r),
        Action::CycleStatus => rel_cycle(pre, post, r),
        Action::IncreasePriority => rel_increase(pre, post, r),
        Action::DecreasePriority => rel_decrease(pre, post, r),
        Action::EnterInsert => r is Ok && (if pre.tasks@.len() == 0 {
            post == (AppState { mode: Mode::Insert, insert_action: InsertAction::AddEnd, ..pre })
        } else {
            rel_start_editing(pre, post)
        }),
        Action::EnterInsertBelow => r is Ok && post == (AppState {
            mode: Mode::Insert,
            insert_action: InsertAction::AddBelow,
            ..pre
        }),
        Action::EnterInsertAbove => r is Ok && post == (AppState {
            mode: Mode::Insert,
            insert_action: InsertAction::AddAbove,
            ..pre
        }),
        Action::EnterVisual => r is Ok && post == (AppState {
            mode: Mode::Visual,
            selection_anchor: Some(pre.selected_index),
            ..pre
        }),
        Action::EnterCommand => r is Ok && post == (AppState {
            mode: Mode::Command,
            command_buffer: post.command_buffer,
            ..pre
        }) && post.command_buffer@ =~= Seq::<char>::empty(),
        Action::Cancel => r is Ok && post == (AppState {
            mode: Mode::Normal,
            selection_anchor: None,
            editing_task_id: None,
            ..pre
        }),
        Action::Undo => rel_undo(pre, post, r),
        Action::Redo => rel_redo(pre, post, r),
        Action::ToggleCollapse => rel_toggle_collapse(pre, post, r),
        Action::NextProject => rel_project_nav(pre, post, 1, r),
        Action::PrevProject => rel_project_nav(pre, post, -1, r),
        Action::Yank => r is Ok && rel_yank(pre, post),
        Action::Paste => exists|id: u128| rel_paste(pre, post, id, r),
        Action::EnterSearch => r is Ok && post == (AppState {
            mode: Mode::Search,
            command_buffer: post.command_buffer,
            ..pre
        }) && post.command_buffer@ =~= Seq::<char>::empty(),
    }
}

/// Every character of the sequence is whitespace.
pub open spec fn all_spaces(s: Seq<char>) -> bool {
    forall|i: int| 0 <= i < s.len() ==> crate::query::is_space(#[trigger] s[i])
}

/// How a sort command changes the state: the sort order is set and the
/// view reloaded under it.
pub open spec fn rel_sort_change(
    pre: AppState,
    post: AppState,
    sb: SortBy,
    r: Result<(), TaskVimError>,
) -> bool {
    &&& r is Ok
    &&& post == (AppState {
        tasks: post.tasks,
        selected_index: post.selected_index,
        sort_by: sb,
        ..pre
    })
    &&& view_ok(post)
    &&& post.selected_index as int == clamp_sel(
        pre.selected_index as int,
        post.tasks@.len() as int,
    )
}

/// How clearing the filter changes the state.
pub open spec fn rel_filter_clear(pre: AppState, post: AppState, r: Result<(), TaskVimError>) -> bool {
    &&& r is Ok
    &&& post == (AppState {
        tasks: post.tasks,
        selected_index: post.selected_index,
        filter_string: None,
        ..pre
    })
    &&& view_ok(post)
    &&& post.selected_index as int == clamp_sel(
        pre.selected_index as int,
        post.tasks@.len() as int,
    )
}

/// How `execute_command` changes the state: the small colon-command
/// grammar. `q` and `wq` stop the loop; `w` does nothing, writes being
/// eager; the sort commands change the order; `stats` opens the
/// statistics mode; `lua <code>` queues the code for the scripting
/// collaborator; `filter <expr>` applies a validated filter, keeping the
/// previous one when validation fails; a blank `filter` clears it;
/// anything else is silently ignored.
pub open spec fn rel_execute_command(
    pre: AppState,
    post: AppState,
    cmd: Seq<char>,
    r: Result<(), TaskVimError>,
) -> bool {
    if cmd == "q"@ || cmd == "wq"@ {
        r is Ok && post == (AppState { running: false, ..pre })
    } else if cmd == "w"@ {
        r is Ok && post == pre
    } else if cmd == "sort priority"@ {
        rel_sort_change(pre, post, SortBy::Priority, r)
    } else if cmd == "sort created"@ {
        rel_sort_change(pre, post, SortBy::CreatedAt, r)
    } else if cmd == "sort position"@ {
        rel_sort_change(pre, post, SortBy::Position, r)
    } else if cmd == "stats"@ {
        r is Ok && post == (AppState { mode: Mode::Stats, ..pre })
    } else if match_at(cmd, "lua "@, 0) {
        r is Ok && post == (AppState { effects: post.effects, ..pre }) && effects_view(
            post.effects@,
        ) == effects_view(pre.effects@).push(EffectView::ScriptRun(cmd.skip(4)))
    } else if match_at(cmd, "filter "@, 0) {
        let rest = cmd.skip(7);
        if all_spaces(rest) {
            rel_filter_clear(pre, post, r)
        } else if preds_valid(spec_parse(rest)) {
            &&& r is Ok
            &&& post == (AppState {
                tasks: post.tasks,
                selected_index: post.selected_index,
                filter_string: post.filter_string,
                ..pre
            })
            &&& opt_view(post.filter_string) == Some(rest)
            &&& view_ok(post)
            &&& post.selected_index as int == clamp_sel(
                pre.selected_index as int,
                post.tasks@.len() as int,
            )
        } else {
            (r matches Err(e) && e is Validation) && post == pre
        }
    } else if cmd == "filter"@ {
        rel_filter_clear(pre, post, r)
    } else {
        r is Ok && post == pre
    }
}

/// The number of nested macro replays the dispatcher allows: a replay
/// that triggers further replays stops silently at this depth, so a
/// macro that plays itself cannot loop forever.
pub const REPLAY_DEPTH: u64 = 16;

/// The recorded events of a register: the first entry wins.
pub open spec fn macro_lookup(
    ms: Seq<(char, Seq<KeyCombination>)>,
    reg: char,
) -> Option<Seq<KeyCombination>>
    decreases ms.len(),
{
    if ms.len() == 0 {
        None
    } else if ms[0].0 == reg {
        Some(ms[0].1)
    } else {
        macro_lookup(ms.drop_first(), reg)
    }
}

/// How recording one key changes the state: the key is appended to the
/// active register and nothing else moves.
pub open spec fn recorded(pre: AppState, post: AppState, reg: char, key: KeyCombination) -> bool {
    &&& post == (AppState { macros: post.macros, ..pre })
    &&& macro_lookup(macros_view(post.macros@), reg) == (match macro_lookup(
        macros_view(pre.macros@),
        reg,
    ) {
        Some(es) => Some(es.push(key)),
        None => None::<Seq<KeyCombination>>,
    })
    &&& forall|r2: char|
        r2 != reg ==> #[trigger] macro_lookup(macros_view(post.macros@), r2) == macro_lookup(
            macros_view(pre.macros@),
            r2,
        )
}

/// A chain of states stepping through recorded events, each step a
/// successful run of the key pipeline at the shallow layer.
pub open spec fn replay_chain(
    chain: Seq<AppState>,
    events: Seq<KeyCombination>,
    depth: nat,
) -> bool {
    &&& chain.len() == events.len() + 1
    &&& forall|i: int|
        0 <= i < events.len() ==> step_key_rel(
            chain[i],
            chain[i + 1],
            #[trigger] events[i],
            depth,
            Ok(()),
        )
}

/// How replaying a sequence of recorded events changes the state: each
/// event runs through the identical resolve-and-dispatch pipeline, in
/// order; the first failure aborts the replay and is reported.
pub open spec fn replay_rel(
    pre: AppState,
    post: AppState,
    events: Seq<KeyCombination>,
    depth: nat,
    r: Result<(), TaskVimError>,
) -> bool {
    match r {
        Ok(_) => exists|chain: Seq<AppState>|
            #[trigger] replay_chain(chain, events, depth) && chain[0] == pre && chain.last()
                == post,
        Err(e) => exists|chain: Seq<AppState>, i: int|
            0 <= i < events.len() && #[trigger] replay_chain(chain, events.take(i), depth)
                && chain[0] == pre && step_key_rel(chain.last(), post, events[i], depth, Err(e)),
    }
}

/// The fallback handling of a key in Normal mode, at the shallow layer:
/// the pending-prefix machine. A pending prefix either completes its
/// sequence or is cleared; with nothing pending, a prefix key arms its
/// prefix and any other unresolved key does nothing. At this layer a
/// playback that would start a further replay is left undescribed; the
/// deep layer below describes one full replay level.
pub open spec fn normal_fallback_shallow_rel(
    pre: AppState,
    post: AppState,
    key: KeyCombination,
    depth: nat,
    r: Result<(), TaskVimError>,
) -> bool {
    match pre.pending {
        PendingPrefix::PrefixG => {
            if key.code == KeyCode::Char('g') {
                r is Ok && post == (AppState {
                    selected_index: 0,
                    pending: PendingPrefix::Idle,
                    ..pre
                })
            } else if key.code == KeyCode::Char('t') {
                exists|mid: AppState|
                    #[trigger] rel_project_nav(pre, mid, 1, r) && post == (AppState {
                        pending: PendingPrefix::Idle,
                        ..mid
                    })
            } else if key.code == KeyCode::Char('T') {
                exists|mid: AppState|
                    #[trigger] rel_project_nav(pre, mid, -1, r) && post == (AppState {
                        pending: PendingPrefix::Idle,
                        ..mid
                    })
            } else {
                r is Ok && post == (AppState { pending: PendingPrefix::Idle, ..pre })
            }
        },
        PendingPrefix::PrefixZ => {
            if key.code == KeyCode::Char('a') {
                exists|mid: AppState|
                    #[trigger] rel_toggle_collapse(pre, mid, r) && post == (AppState {
                        pending: PendingPrefix::Idle,
                        ..mid
                    })
            } else {
                r is Ok && post == (AppState { pending: PendingPrefix::Idle, ..pre })
            }
        },
        PendingPrefix::PrefixY => {
            if key.code == KeyCode::Char('y') {
                r is Ok && exists|mid: AppState|
                    #[trigger] rel_yank(pre, mid) && post == (AppState {
                        pending: PendingPrefix::Idle,
                        ..mid
                    })
            } else {
                r is Ok && post == (AppState { pending: PendingPrefix::Idle, ..pre })
            }
        },
        PendingPrefix::PrefixQ => {
            match key.code {
                KeyCode::Char(c) => {
                    &&& r is Ok
                    &&& post == (AppState {
                        pending: PendingPrefix::Idle,
                        macro_recording: Some(c),
                        macros: post.macros,
                        ..pre
                    })
                    &&& macro_lookup(macros_view(post.macros@), c) == Some(
                        Seq::<KeyCombination>::empty(),
                    )
                    &&& forall|r2: char|
                        r2 != c ==> #[trigger] macro_lookup(macros_view(post.macros@), r2)
                            == macro_lookup(macros_view(pre.macros@), r2)
                    &&& macros_view(post.macros@).len() > 0 && macros_view(post.macros@)[0].0 == c
                },
                _ => r is Ok && post == (AppState { pending: PendingPrefix::Idle, ..pre }),
            }
        },
        PendingPrefix::PrefixAt => {
            match key.code {
                KeyCode::Char(c) => {
                    match macro_lookup(macros_view(pre.macros@), c) {
                        None => r is Ok && post == (AppState {
                            pending: PendingPrefix::Idle,
                            ..pre
                        }),
                        Some(es) => {
                            if depth == 0 {
                                r is Ok && post == (AppState {
                                    pending: PendingPrefix::Idle,
                                    ..pre
                                })
                            } else {
                                // a replay nested inside a replay is not
                                // described further at this layer
                                true
                            }
                        },
                    }
                },
                _ => r is Ok && post == (AppState { pending: PendingPrefix::Idle, ..pre }),
            }
        },
        PendingPrefix::Idle => {
            match key.code {
                KeyCode::Char(c) => {
                    if c == 'g' {
                        r is Ok && post == (AppState { pending: PendingPrefix::PrefixG, ..pre })
                    } else if c == 'z' {
                        r is Ok && post == (AppState { pending: PendingPrefix::PrefixZ, ..pre })
                    } else if c == 'y' {
                        r is Ok && post == (AppState { pending: PendingPrefix::PrefixY, ..pre })
                    } else if c == '@' {
                        r is Ok && post == (AppState { pending: PendingPrefix::PrefixAt, ..pre })
                    } else if c == 'q' {
                        r is Ok && post == (AppState { pending: PendingPrefix::PrefixQ, ..pre })
                    } else {
                        r is Ok && post == pre
                    }
                },
                _ => r is Ok && post == pre,
            }
        },
    }
}

/// The fallback handling of a key in Normal mode: as the shallow layer,
/// but a playback replays the register through the pipeline, each
/// replayed event described by the shallow layer.
pub open spec fn normal_fallback_deep_rel(
    pre: AppState,
    post: AppState,
    key: KeyCombination,
    depth: nat,
    r: Result<(), TaskVimError>,
) -> bool {
    match pre.pending {
        PendingPrefix::PrefixG => {
            if key.code == KeyCode::Char('g') {
                r is Ok && post == (AppState {
                    selected_index: 0,
                    pending: PendingPrefix::Idle,
                    ..pre
                })
            } else if key.code == KeyCode::Char('t') {
                exists|mid: AppState|
                    #[trigger] rel_project_nav(pre, mid, 1, r) && post == (AppState {
                        pending: PendingPrefix::Idle,
                        ..mid
                    })
            } else if key.code == KeyCode::Char('T') {
                exists|mid: AppState|
                    #[trigger] rel_project_nav(pre, mid, -1, r) && post == (AppState {
                        pending: PendingPrefix::Idle,
                        ..mid
                    })
            } else {
                r is Ok && post == (AppState { pending: PendingPrefix::Idle, ..pre })
            }
        },
        PendingPrefix::PrefixZ => {
            if key.code == KeyCode::Char('a') {
                exists|mid: AppState|
                    #[trigger] rel_toggle_collapse(pre, mid, r) && post == (AppState {
                        pending: PendingPrefix::Idle,
                        ..mid
                    })
            } else {
                r is Ok && post == (AppState { pending: PendingPrefix::Idle, ..pre })
            }
        },
        PendingPrefix::PrefixY => {
            if key.code == KeyCode::Char('y') {
                r is Ok && exists|mid: AppState|
                    #[trigger] rel_yank(pre, mid) && post == (AppState {
                        pending: PendingPrefix::Idle,
                        ..mid
                    })
            } else {
                r is Ok && post == (AppState { pending: PendingPrefix::Idle, ..pre })
            }
        },
        PendingPrefix::PrefixQ => {
            match key.code {
                KeyCode::Char(c) => {
                    &&& r is Ok
                    &&& post == (AppState {
                        pending: PendingPrefix::Idle,
                        macro_recording: Some(c),
                        macros: post.macros,
                        ..pre
                    })
                    &&& macro_lookup(macros_view(post.macros@), c) == Some(
                        Seq::<KeyCombination>::empty(),
                    )
                    &&& forall|r2: char|
                        r2 != c ==> #[trigger] macro_lookup(macros_view(post.macros@), r2)
                            == macro_lookup(macros_view(pre.macros@), r2)
                    &&& macros_view(post.macros@).len() > 0 && macros_view(post.macros@)[0].0 == c
                },
                _ => r is Ok && post == (AppState { pending: PendingPrefix::Idle, ..pre }),
            }
        },
        PendingPrefix::PrefixAt => {
            match key.code {
                KeyCode::Char(c) => {
                    match macro_lookup(macros_view(pre.macros@), c) {
                        None => r is Ok && post == (AppState {
                            pending: PendingPrefix::Idle,
                            ..pre
                        }),
                        Some(es) => {
                            if depth == 0 {
                                r is Ok && post == (AppState {
                                    pending: PendingPrefix::Idle,
                                    ..pre
                                })
                            } else {
                                replay_rel(
                                    AppState { pending: PendingPrefix::Idle, ..pre },
                                    post,
                                    es,
                                    (depth - 1) as nat,
                                    r,
                                )
                            }
                        },
                    }
                },
                _ => r is Ok && post == (AppState { pending: PendingPrefix::Idle, ..pre }),
            }
        },
        PendingPrefix::Idle => {
            match key.code {
                KeyCode::Char(c) => {
                    if c == 'g' {
                        r is Ok && post == (AppState { pending: PendingPrefix::PrefixG, ..pre })
                    } else if c == 'z' {
                        r is Ok && post == (AppState { pending: PendingPrefix::PrefixZ, ..pre })
                    } else if c == 'y' {
                        r is Ok && post == (AppState { pending: PendingPrefix::PrefixY, ..pre })
                    } else if c == '@' {
                        r is Ok && post == (AppState { pending: PendingPrefix::PrefixAt, ..pre })
                    } else if c == 'q' {
                        r is Ok && post == (AppState { pending: PendingPrefix::PrefixQ, ..pre })
                    } else {
                        r is Ok && post == pre
                    }
                },
                _ => r is Ok && post == pre,
            }
        },
    }
}

/// The fallback handling of a key in Visual mode: only the `gg` jump.
pub open spec fn visual_fallback_rel(
    pre: AppState,
    post: AppState,
    key: KeyCombination,
    r: Result<(), TaskVimError>,
) -> bool {
    if pre.pending == PendingPrefix::PrefixG && key.code == KeyCode::Char('g') {
        r is Ok && post == (AppState { selected_index: 0, pending: PendingPrefix::Idle, ..pre })
    } else if pre.pending == PendingPrefix::Idle && key.code == KeyCode::Char('g') {
        r is Ok && post == (AppState { pending: PendingPrefix::PrefixG, ..pre })
    } else {
        r is Ok && post == (AppState { pending: PendingPrefix::Idle, ..pre })
    }
}

/// The raw-text handling of a key in Insert mode: Escape abandons the
/// edit, Enter commits a non-empty buffer under the insert variant,
/// characters and Backspace edit the buffer.
pub open spec fn insert_fallback_rel(
    pre: AppState,
    post: AppState,
    key: KeyCombination,
    r: Result<(), TaskVimError>,
) -> bool {
    match key.code {
        KeyCode::Esc => r is Ok && post == (AppState {
            mode: Mode::Normal,
            editing_task_id: None,
            ..pre
        }),
        KeyCode::Enter => {
            if pre.command_buffer@.len() == 0 {
                r is Ok && post == pre
            } else {
                exists|mid: AppState|
                    #[trigger] insert_commit_rel(pre, mid, r) && (match r {
                        Ok(_) => post == (AppState {
                            command_buffer: post.command_buffer,
                            mode: Mode::Normal,
                            ..mid
                        }) && post.command_buffer@ =~= Seq::<char>::empty(),
                        Err(_) => post == mid,
                    })
            }
        },
        KeyCode::Char(c) => r is Ok && post == (AppState {
            command_buffer: post.command_buffer,
            ..pre
        }) && post.command_buffer@ == pre.command_buffer@.push(c),
        KeyCode::Backspace => r is Ok && post == (AppState {
            command_buffer: post.command_buffer,
            ..pre
        }) && post.command_buffer@ == (if pre.command_buffer@.len() > 0 {
            pre.command_buffer@.drop_last()
        } else {
            pre.command_buffer@
        }),
        _ => r is Ok && post == pre,
    }
}

/// What confirming the insert buffer does, by insert variant.
pub open spec fn insert_commit_rel(
    pre: AppState,
    mid: AppState,
    r: Result<(), TaskVimError>,
) -> bool {
    match pre.insert_action {
        InsertAction::AddEnd => exists|id: u128|
            rel_add_task(pre, mid, id, pre.command_buffer@, r),
        InsertAction::AddBelow => exists|id: u128|
            rel_add_below(pre, mid, id, pre.command_buffer@, r),
        InsertAction::AddAbove => exists|id: u128|
            rel_add_above(pre, mid, id, pre.command_buffer@, r),
        InsertAction::Edit => rel_commit_edit(pre, mid, r),
    }
}

/// The raw-text handling of a key in Command mode.
pub open spec fn command_fallback_rel(
    pre: AppState,
    post: AppState,
    key: KeyCombination,
    r: Result<(), TaskVimError>,
) -> bool {
    match key.code {
        KeyCode::Esc => r is Ok && post == (AppState { mode: Mode::Normal, ..pre }),
        KeyCode::Enter => exists|mid: AppState|
            #[trigger] rel_execute_command(pre, mid, pre.command_buffer@, r) && (match r {
                Ok(_) => post == (AppState {
                    command_buffer: post.command_buffer,
                    mode: Mode::Normal,
                    ..mid
                }) && post.command_buffer@ =~= Seq::<char>::empty(),
                Err(_) => post == mid,
            }),
        KeyCode::Char(c) => r is Ok && post == (AppState {
            command_buffer: post.command_buffer,
            ..pre
        }) && post.command_buffer@ == pre.command_buffer@.push(c),
        KeyCode::Backspace => r is Ok && post == (AppState {
            command_buffer: post.command_buffer,
            ..pre
        }) && post.command_buffer@ == (if pre.command_buffer@.len() > 0 {
            pre.command_buffer@.drop_last()
        } else {
            pre.command_buffer@
        }),
        _ => r is Ok && post == pre,
    }
}

/// The raw-text handling of a key in Search mode: Enter applies the
/// buffer as the search query (an empty buffer clears it) and reloads.
pub open spec fn search_fallback_rel(
    pre: AppState,
    post: AppState,
    key: KeyCombination,
    r: Result<(), TaskVimError>,
) -> bool {
    match key.code {
        KeyCode::Esc => r is Ok && post == (AppState { mode: Mode::Normal, ..pre }),
        KeyCode::Enter => {
            &&& r is Ok
            &&& post == (AppState {
                tasks: post.tasks,
                selected_index: post.selected_index,
                search_query: post.search_query,
                command_buffer: post.command_buffer,
                mode: Mode::Normal,
                ..pre
            })
            &&& opt_view(post.search_query) == (if pre.command_buffer@.len() == 0 {
                None::<Seq<char>>
            } else {
                Some(pre.command_buffer@)
            })
            &&& post.command_buffer@ =~= Seq::<char>::empty()
            &&& view_ok(post)
            &&& post.selected_index as int == clamp_sel(
                pre.selected_index as int,
                post.tasks@.len() as int,
            )
        },
        KeyCode::Char(c) => r is Ok && post == (AppState {
            command_buffer: post.command_buffer,
            ..pre
        }) && post.command_buffer@ == pre.command_buffer@.push(c),
        KeyCode::Backspace => r is Ok && post == (AppState {
            command_buffer: post.command_buffer,
            ..pre
        }) && post.command_buffer@ == (if pre.command_buffer@.len() > 0 {
            pre.command_buffer@.drop_last()
        } else {
            pre.command_buffer@
        }),
        _ => r is Ok && post == pre,
    }
}

/// The two-tier handling of one key after any recording, at the given
/// layer: a direct keymap resolution executes its action and clears the
/// pending prefix (unless the key is the prefix key `g` itself); an
/// unresolved key goes to the mode's fallback handling.
pub open spec fn dispatch_shallow_rel(
    pre: AppState,
    post: AppState,
    key: KeyCombination,
    depth: nat,
    r: Result<(), TaskVimError>,
) -> bool {
    match crate::keymap::lookup(pre.config.keymap.entries@, pre.mode, key) {
        Some(action) => exists|mid: AppState|
            #[trigger] rel_handle_action(pre, mid, action, r) && post == (AppState {
                pending: (if key.code == KeyCode::Char('g') {
                    mid.pending
                } else {
                    PendingPrefix::Idle
                }),
                ..mid
            }),
        None => {
            match pre.mode {
                Mode::Normal => normal_fallback_shallow_rel(pre, post, key, depth, r),
                Mode::Visual => visual_fallback_rel(pre, post, key, r),
                Mode::Insert => insert_fallback_rel(pre, post, key, r),
                Mode::Command => command_fallback_rel(pre, post, key, r),
                Mode::Search => search_fallback_rel(pre, post, key, r),
                Mode::Filter => r is Ok && post == pre,
                Mode::Stats => r is Ok && post == pre,
            }
        },
    }
}

pub open spec fn dispatch_deep_rel(
    pre: AppState,
    post: AppState,
    key: KeyCombination,
    depth: nat,
    r: Result<(), TaskVimError>,
) -> bool {
    match crate::keymap::lookup(pre.config.keymap.entries@, pre.mode, key) {
        Some(action) => exists|mid: AppState|
            #[trigger] rel_handle_action(pre, mid, action, r) && post == (AppState {
                pending: (if key.code == KeyCode::Char('g') {
                    mid.pending
                } else {
                    PendingPrefix::Idle
                }),
                ..mid
            }),
        None => {
            match pre.mode {
                Mode::Normal => normal_fallback_deep_rel(pre, post, key, depth, r),
                Mode::Visual => visual_fallback_rel(pre, post, key, r),
                Mode::Insert => insert_fallback_rel(pre, post, key, r),
                Mode::Command => command_fallback_rel(pre, post, key, r),
                Mode::Search => search_fallback_rel(pre, post, key, r),
                Mode::Filter => r is Ok && post == pre,
                Mode::Stats => r is Ok && post == pre,
            }
        },
    }
}

/// How one raw key event changes the state, described at the shallow
/// layer: exact except for a playback nested inside a replay. While
/// recording, the stopping `q` (in Normal mode with nothing pending)
/// only closes the register; any other key is first appended to the
/// register and then dispatched exactly as live input.
pub open spec fn step_key_rel(
    pre: AppState,
    post: AppState,
    key: KeyCombination,
    depth: nat,
    r: Result<(), TaskVimError>,
) -> bool {
    match pre.macro_recording {
        Some(reg) => {
            if pre.mode == Mode::Normal && pre.pending == PendingPrefix::Idle && key
                == crate::input::plain('q') {
                r is Ok && post == (AppState { macro_recording: None, ..pre })
            } else {
                exists|mid: AppState|
                    #[trigger] recorded(pre, mid, reg, key) && dispatch_shallow_rel(
                        mid,
                        post,
                        key,
                        depth,
                        r,
                    )
            }
        },
        None => dispatch_shallow_rel(pre, post, key, depth, r),
    }
}

/// How one raw key event changes the state: as the shallow layer, and a
/// playback replays the register through the pipeline with each
/// replayed event described by the shallow layer.
pub open spec fn handle_key_rel(
    pre: AppState,
    post: AppState,
    key: KeyCombination,
    depth: nat,
    r: Result<(), TaskVimError>,
) -> bool {
    match pre.macro_recording {
        Some(reg) => {
            if pre.mode == Mode::Normal && pre.pending == PendingPrefix::Idle && key
                == crate::input::plain('q') {
                r is Ok && post == (AppState { macro_recording: None, ..pre })
            } else {
                exists|mid: AppState|
                    #[trigger] recorded(pre, mid, reg, key) && dispatch_deep_rel(
                        mid,
                        post,
                        key,
                        depth,
                        r,
                    )
            }
        },
        None => dispatch_deep_rel(pre, post, key, depth, r),
    }
}

/// The deep layer refines the shallow layer.
pub proof fn lemma_key_rel_weaken(
    pre: AppState,
    post: AppState,
    key: KeyCombination,
    depth: nat,
    r: Result<(), TaskVimError>,
)
    requires
        handle_key_rel(pre, post, key, depth, r),
    ensures
        step_key_rel(pre, post, key, depth, r),
{
}

/// Every viewed task is one of the stored tasks, so its priority is
/// valid.
proof fn lemma_view_task_in_store(s: AppState, i: int)
    requires
        s.store.wf(),
        view_ok(s),
        0 <= i < s.tasks@.len(),
    ensures
        s.store.tasks_view().contains(s.tasks@[i]@),
        priority_valid(s.tasks@[i]@.priority),
{
    broadcast use vstd::seq_lib::group_to_multiset_ensures;
    broadcast use vstd::multiset::group_multiset_axioms;

    let v = views_of(s.tasks@);
    let x = s.tasks@[i]@;
    assert(v[i] == x);
    assert(v.contains(x));
    assert(v.to_multiset().count(x) > 0);
    let m = matching(s.store.tasks_view(), active_preds(opt_view(s.filter_string)));
    assert(m.to_multiset().count(x) > 0);
    assert(m.contains(x));
    crate::store::lemma_matching_props(
        s.store.tasks_view(),
        active_preds(opt_view(s.filter_string)),
    );
    assert(s.store.tasks_view().contains(x));
    let k = choose|k: int| 0 <= k < s.store.tasks_view().len() && s.store.tasks_view()[k] == x;
    assert(priority_valid(s.store.tasks_view()[k].priority));
}

/// Membership of a string in a string vector, by contents.
fn contains_str_vec(v: &Vec<String>, s: &str) -> (r: bool)
    ensures
        r == strings_view(v@).contains(s@),
{
    let mut i: usize = 0;
    while i < v.len()
        invariant
            i <= v.len(),
            forall|k: int| 0 <= k < i ==> strings_view(v@)[k] != s@,
        decreases v.len() - i,
    {
        if str_eq(v[i].as_str(), s) {
            assert(strings_view(v@)[i as int] == s@);
            return true;
        }
        i += 1;
    }
    false
}

/// Whether a task is visible under the collapse set and search query.
fn is_visible(t: &Task, collapsed: &Vec<String>, search: &Option<String>) -> (r: bool)
    ensures
        r == vis(t@, strings_view(collapsed@), opt_view(*search)),
{
    let project_visible = match &t.project {
        Some(p) => !contains_str_vec(collapsed, p.as_str()),
        None => true,
    };
    let search_match = match search {
        Some(q) => {
            let lq = lowercase(q.as_str());
            let lt = lowercase(t.title.as_str());
            if str_contains(lt.as_str(), lq.as_str()) {
                true
            } else {
                match &t.description {
                    Some(d) => {
                        let ld = lowercase(d.as_str());
                        str_contains(ld.as_str(), lq.as_str())
                    },
                    None => false,
                }
            }
        },
        None => true,
    };
    project_visible && search_match
}

/// A copy of a key-event vector.
fn clone_keys(v: &Vec<KeyCombination>) -> (r: Vec<KeyCombination>)
    ensures
        r@ == v@,
{
    let mut out: Vec<KeyCombination> = Vec::new();
    let mut i: usize = 0;
    while i < v.len()
        invariant
            i <= v@.len(),
            out@ =~= v@.take(i as int),
        decreases v@.len() - i,
    {
        out.push(v[i]);
        i += 1;
    }
    proof {
        assert(v@.take(v@.len() as int) =~= v@);
    }
    out
}

/// Insert a name into a strictly sorted list, keeping it sorted and
/// duplicate free.
fn insert_sorted_unique(v: &mut Vec<String>, s: String)
    requires
        forall|a: int, b: int|
            0 <= a < b < strings_view(old(v)@).len() ==> crate::text::lex_lt(
                #[trigger] strings_view(old(v)@)[a],
                #[trigger] strings_view(old(v)@)[b],
            ),
    ensures
        forall|a: int, b: int|
            0 <= a < b < strings_view(final(v)@).len() ==> crate::text::lex_lt(
                #[trigger] strings_view(final(v)@)[a],
                #[trigger] strings_view(final(v)@)[b],
            ),
        forall|x: Seq<char>| #[trigger]
            strings_view(final(v)@).contains(x) <==> (strings_view(old(v)@).contains(x) || x
                == s@),
{
    let mut i: usize = 0;
    while i < v.len() && crate::text::str_lt(v[i].as_str(), s.as_str())
        invariant
            *v == *old(v),
            i <= v@.len(),
            forall|k: int| 0 <= k < i ==> crate::text::lex_lt(#[trigger] strings_view(v@)[k], s@),
        decreases v@.len() - i,
    {
        proof {
            assert(strings_view(v@)[i as int] == v@[i as int]@);
        }
        i += 1;
    }
    if i < v.len() {
        if str_eq(v[i].as_str(), s.as_str()) {
            proof {
                assert(strings_view(v@)[i as int] == s@);
                assert(strings_view(v@).contains(s@));
            }
            return;
        }
    }
    proof {
        if i < v@.len() {
            crate::text::lemma_lex_trichotomy(v@[i as int]@, s@);
            assert(crate::text::lex_lt(s@, strings_view(v@)[i as int]));
        }
    }
    v.insert(i, s);
    proof {
        let nv = strings_view(v@);
        let ov = strings_view(old(v)@);
        assert(v@ == old(v)@.insert(i as int, s));
        assert forall|k: int| 0 <= k < nv.len() implies nv[k] == (if k < i {
            ov[k]
        } else if k == i {
            s@
        } else {
            ov[k - 1]
        }) by {
            if k < i {
                assert(v@[k] == old(v)@[k]);
            } else if k == i {
                assert(v@[k] == s);
            } else {
                assert(v@[k] == old(v)@[k - 1]);
            }
        }
        assert forall|a: int, b: int| 0 <= a < b < nv.len() implies crate::text::lex_lt(
            #[trigger] nv[a],
            #[trigger] nv[b],
        ) by {
            if a < i && b == i {
            } else if a == i && b > i {
                if b - 1 > i - 0 {
                }
                if !(crate::text::lex_lt(s@, ov[b - 1])) {
                    if i < ov.len() {
                        crate::text::lemma_lex_lt_trans(s@, ov[i as int], ov[b - 1]);
                    }
                }
                assert(crate::text::lex_lt(ov[i as int], ov[b - 1]) || i == b - 1);
                if i < b - 1 {
                    crate::text::lemma_lex_lt_trans(s@, ov[i as int], ov[b - 1]);
                }
            } else if a < i && b > i {
                assert(crate::text::lex_lt(ov[a], s@) || true);
                if i < ov.len() {
                }
                assert(crate::text::lex_lt(ov[a], ov[b - 1]) || a == b - 1);
                if a == b - 1 {
                    assert(crate::text::lex_lt(ov[a], s@));
                    if i < ov.len() {
                        crate::text::lemma_lex_lt_trans(ov[a], s@, ov[b - 1]);
                    }
                } else {
                }
            } else {
            }
        }
        assert forall|x: Seq<char>| #[trigger] nv.contains(x) implies (ov.contains(x) || x == s@)
            by {
            let k = choose|k: int| 0 <= k < nv.len() && nv[k] == x;
            if k < i {
                assert(ov[k] == x);
            } else if k > i {
                assert(ov[k - 1] == x);
            }
        }
        assert forall|x: Seq<char>| (ov.contains(x) || x == s@) implies #[trigger] nv.contains(x)
            by {
            if x == s@ {
                assert(nv[i as int] == x);
            } else {
                let k = choose|k: int| 0 <= k < ov.len() && ov[k] == x;
                if k < i {
                    assert(nv[k] == x);
                } else {
                    assert(nv[k + 1] == x);
                }
            }
        }
    }
}

impl AppState {
    /// A dispatcher over the given store and configuration, in Normal
    /// mode with the full unfiltered view loaded.
    pub fn new(store: TaskStore, config: Config) -> (r: Result<AppState, TaskVimError>)
        requires
            store.wf(),
            priority_valid(config.default_priority),
        ensures
            r matches Ok(s) && wf(s) && s.store == store && s.config == config && s.mode
                == Mode::Normal && s.running && s.sort_by == SortBy::Position && s.filter_string
                is None && s.search_query is None && s.pending == PendingPrefix::Idle
                && s.selection_anchor is None && s.editing_task_id is None && s.macro_recording
                is None && macros_view(s.macros@) =~= Seq::<(char, Seq<KeyCombination>)>::empty()
                && effects_view(s.effects@) =~= Seq::<EffectView>::empty() && s.command_buffer@
                =~= Seq::<char>::empty() && s.yanked_task is None && strings_view(
                s.collapsed_projects@,
            ) =~= Seq::<Seq<char>>::empty() && s.insert_action == InsertAction::AddEnd,
    {
        let mut s = AppState {
            tasks: Vec::new(),
            selected_index: 0,
            mode: Mode::Normal,
            insert_action: InsertAction::AddEnd,
            command_buffer: String::new(),
            store,
            running: true,
            sort_by: SortBy::Position,
            filter_string: None,
            pending: PendingPrefix::Idle,
            selection_anchor: None,
            editing_task_id: None,
            config,
            collapsed_projects: Vec::new(),
            yanked_task: None,
            macro_recording: None,
            macros: Vec::new(),
            search_query: None,
            effects: Vec::new(),
        };
        proof {
            assert(active_preds(opt_view(s.filter_string)) =~= Seq::<FilterView>::empty());
        }
        match s.reload_tasks() {
            Ok(_) => Ok(s),
            Err(e) => Err(e),
        }
    }

    /// Rebuild the view from the store: fetch the tasks matching the
    /// active filter, order them by the active sort, drop the tasks of
    /// collapsed projects and, under an active search, the tasks the
    /// query does not match; then clamp the selection to the new length.
    /// Nothing else changes. With a well-formed state this cannot fail.
    pub fn reload_tasks(&mut self) -> (r: Result<(), TaskVimError>)
        requires
            base_ok(*old(self)),
        ensures
            wf(*final(self)),
            r is Ok,
            *final(self) == (AppState {
                tasks: final(self).tasks,
                selected_index: final(self).selected_index,
                ..*old(self)
            }),
            view_ok(*final(self)),
            final(self).selected_index as int == clamp_sel(
                old(self).selected_index as int,
                final(self).tasks@.len() as int,
            ),
    {
        let fs: Option<&str> = match &self.filter_string {
            Some(s) => Some(s.as_str()),
            None => None,
        };
        let ghost preds = active_preds(opt_view(self.filter_string));
        proof {
            assert(crate::store::opt_str_view(fs) == opt_view(self.filter_string));
        }
        let fetched = match self.store.get_tasks(fs) {
            Ok(v) => v,
            Err(e) => {
                proof {
                    assert(false);
                }
                return Err(e);
            },
        };
        let key = match self.sort_by {
            SortBy::Position => SortKey::Position,
            SortBy::Priority => SortKey::PriorityDesc,
            SortBy::CreatedAt => SortKey::CreatedAt,
        };
        let sorted = sort_tasks(fetched, key);
        let ghost sortedv = views_of(sorted@);
        let ghost coll = strings_view(self.collapsed_projects@);
        let ghost srch = opt_view(self.search_query);
        let mut out: Vec<Task> = Vec::new();
        let mut i: usize = 0;
        proof {
            assert(views_of(out@) =~= visible_seq(views_of(sorted@.take(0)), coll, srch)) by {
                assert(views_of(sorted@.take(0)) =~= Seq::<TaskView>::empty());
                assert(visible_seq(Seq::<TaskView>::empty(), coll, srch) =~= Seq::<
                    TaskView,
                >::empty()) by {
                    reveal(Seq::filter);
                }
            }
        }
        while i < sorted.len()
            invariant
                i <= sorted.len(),
                coll == strings_view(self.collapsed_projects@),
                srch == opt_view(self.search_query),
                views_of(out@) =~= visible_seq(views_of(sorted@.take(i as int)), coll, srch),
            decreases sorted.len() - i,
        {
            let ghost prefix = views_of(sorted@.take(i as int));
            let ghost before = views_of(out@);
            if is_visible(&sorted[i], &self.collapsed_projects, &self.search_query) {
                out.push(sorted[i].clone());
                proof {
                    assert(views_of(out@) =~= before.push(sorted@[i as int]@));
                }
            }
            proof {
                assert(views_of(sorted@.take(i as int + 1)) =~= prefix.push(sorted@[i as int]@));
                lemma_visible_push(prefix, sorted@[i as int]@, coll, srch);
            }
            i += 1;
        }
        proof {
            assert(sorted@.take(sorted@.len() as int) =~= sorted@);
            assert(views_of(out@) =~= visible_seq(sortedv, coll, srch));
            lemma_visible_sorted(sortedv, coll, srch, key_of_sort(self.sort_by));
            lemma_visible_seq_mset(sortedv, coll, srch);
        }
        self.tasks = out;
        if self.tasks.len() == 0 {
            self.selected_index = 0;
        } else if self.selected_index >= self.tasks.len() {
            self.selected_index = self.tasks.len() - 1;
        }
        Ok(())
    }

    /// Move the selection one row up, stopping at the top.
    pub fn move_selection_up(&mut self)
        ensures
            *final(self) == (AppState {
                selected_index: (if old(self).selected_index > 0 {
                    (old(self).selected_index - 1) as usize
                } else {
                    0
                }),
                ..*old(self)
            }),
    {
        if self.selected_index > 0 {
            self.selected_index = self.selected_index - 1;
        }
    }

    /// Move the selection one row down, stopping at the last row.
    pub fn move_selection_down(&mut self)
        ensures
            *final(self) == (AppState {
                selected_index: (if old(self).tasks@.len() > 0 && old(self).selected_index
                    < old(self).tasks@.len() - 1 {
                    (old(self).selected_index + 1) as usize
                } else {
                    old(self).selected_index
                }),
                ..*old(self)
            }),
    {
        if self.tasks.len() > 0 && self.selected_index < self.tasks.len() - 1 {
            self.selected_index = self.selected_index + 1;
        }
    }

    /// Move the selection to the first row.
    pub fn move_to_top(&mut self)
        ensures
            *final(self) == (AppState { selected_index: 0, ..*old(self) }),
    {
        self.selected_index = 0;
    }

    /// Move the selection to the last row; on an empty view nothing
    /// changes.
    pub fn move_to_bottom(&mut self)
        ensures
            *final(self) == (AppState {
                selected_index: (if old(self).tasks@.len() > 0 {
                    (old(self).tasks@.len() - 1) as usize
                } else {
                    old(self).selected_index
                }),
                ..*old(self)
            }),
    {
        if self.tasks.len() > 0 {
            self.selected_index = self.tasks.len() - 1;
        }
    }

    /// Move the selection ten rows down, clamping to the last row; on an
    /// empty view the selection becomes 0.
    pub fn page_down(&mut self)
        ensures
            *final(self) == (AppState {
                selected_index: (if old(self).tasks@.len() == 0 {
                    0
                } else if old(self).selected_index + 10 < old(self).tasks@.len() {
                    (old(self).selected_index + 10) as usize
                } else {
                    (old(self).tasks@.len() - 1) as usize
                }),
                ..*old(self)
            }),
    {
        if self.tasks.len() == 0 {
            self.selected_index = 0;
        } else {
            let max = self.tasks.len() - 1;
            if self.selected_index < max && max - self.selected_index > 10 {
                self.selected_index = self.selected_index + 10;
            } else {
                self.selected_index = max;
            }
        }
    }

    /// Move the selection ten rows up, stopping at the top.
    pub fn page_up(&mut self)
        ensures
            *final(self) == (AppState {
                selected_index: (if old(self).selected_index >= 10 {
                    (old(self).selected_index - 10) as usize
                } else {
                    0
                }),
                ..*old(self)
            }),
    {
        if self.selected_index >= 10 {
            self.selected_index = self.selected_index - 10;
        } else {
            self.selected_index = 0;
        }
    }

    /// Remember the selected task for a later paste.
    pub fn yank_selected(&mut self)
        requires
            wf(*old(self)),
        ensures
            wf(*final(self)),
            *final(self) == (AppState { yanked_task: final(self).yanked_task, ..*old(self) }),
            old(self).tasks@.len() > 0 ==> (final(self).yanked_task matches Some(t) && t@ == old(
                self,
            ).tasks@[old(self).selected_index as int]@),
            old(self).tasks@.len() == 0 ==> final(self).yanked_task == old(self).yanked_task,
    {
        if self.selected_index < self.tasks.len() {
            proof {
                lemma_view_task_in_store(*self, self.selected_index as int);
            }
            let t = self.tasks[self.selected_index].clone();
            self.yanked_task = Some(t);
        }
    }

    /// Begin editing the selected task: its title becomes the buffer, the
    /// mode becomes Insert in its editing variant. On an empty view
    /// nothing changes.
    pub fn start_editing(&mut self)
        requires
            wf(*old(self)),
        ensures
            wf(*final(self)),
            old(self).tasks@.len() == 0 ==> *final(self) == *old(self),
            old(self).tasks@.len() > 0 ==> *final(self) == (AppState {
                editing_task_id: Some(old(self).tasks@[old(self).selected_index as int]@.id),
                command_buffer: final(self).command_buffer,
                mode: Mode::Insert,
                insert_action: InsertAction::Edit,
                ..*old(self)
            }) && final(self).command_buffer@ == old(self).tasks@[old(
                self,
            ).selected_index as int]@.title@,
    {
        if self.selected_index < self.tasks.len() {
            let t = &self.tasks[self.selected_index];
            self.editing_task_id = Some(t.id);
            self.command_buffer = t.title.clone();
            self.mode = Mode::Insert;
            self.insert_action = InsertAction::Edit;
        }
    }

    /// The largest position among the viewed tasks, or 0 when the view
    /// is empty.
    fn max_view_pos(&self) -> (r: i64)
        ensures
            r as int == max_pos(views_of(self.tasks@)),
    {
        if self.tasks.len() == 0 {
            return 0;
        }
        let mut m: i64 = self.tasks[0].position;
        let mut i: usize = 1;
        proof {
            assert(views_of(self.tasks@).take(1).len() == 1);
            assert(views_of(self.tasks@).take(1)[0] == views_of(self.tasks@)[0]);
        }
        while i < self.tasks.len()
            invariant
                1 <= i <= self.tasks@.len(),
                self.tasks@.len() > 0,
                m as int == max_pos(views_of(self.tasks@).take(i as int)),
            decreases self.tasks@.len() - i,
        {
            proof {
                let v = views_of(self.tasks@);
                assert(v.take(i as int + 1).drop_last() =~= v.take(i as int));
                assert(v.take(i as int + 1).last() == v[i as int]);
            }
            if self.tasks[i].position > m {
                m = self.tasks[i].position;
            }
            i += 1;
        }
        proof {
            assert(views_of(self.tasks@).take(self.tasks@.len() as int) =~= views_of(
                self.tasks@,
            ));
        }
        m
    }

    /// The position of the selected task, or 0 when the view is empty.
    fn current_pos(&self) -> (r: i64)
        requires
            self.tasks@.len() > 0 ==> self.selected_index < self.tasks@.len(),
        ensures
            r == cur_pos(*self),
    {
        if self.selected_index < self.tasks.len() {
            self.tasks[self.selected_index].position
        } else {
            0
        }
    }

    /// Create a task with the given identifier and title at the end of
    /// the ordering: its position is one past the largest viewed
    /// position, its priority the configured default. Fails, changing
    /// nothing, when the identifier is already stored or the ordering is
    /// exhausted.
    pub fn add_task_with_id(&mut self, id: u128, title: String) -> (r: Result<(), TaskVimError>)
        requires
            wf(*old(self)),
        ensures
            wf(*final(self)),
            rel_add_task(*old(self), *final(self), id, title@, r),
    {
        let mp = self.max_view_pos();
        if self.store.contains_id(id) {
            return Err(TaskVimError::Internal(String::from_str("identifier already in use")));
        }
        if mp == i64::MAX {
            return Err(TaskVimError::Internal(String::from_str("position ordering exhausted")));
        }
        let mut t = Task::new(title);
        t.id = id;
        t.priority = self.config.default_priority;
        t.position = mp + 1;
        self.store.save_task(&t);
        let ghost nt = t@;
        self.effects.push(Effect::Hook(HookKind::TaskCreate, t));
        proof {
            assert(effects_view(self.effects@) =~= effects_view(old(self).effects@).push(
                EffectView::HookFired(HookKind::TaskCreate, nt),
            ));
        }
        let r = self.reload_tasks();
        proof {
            assert(created_shape(
                nt,
                id,
                title@,
                old(self).config.default_priority,
                max_pos(views_of(old(self).tasks@)) + 1,
            ));
        }
        r
    }

    /// Create a task with a freshly drawn identifier at the end of the
    /// ordering.
    pub fn add_task(&mut self, title: String) -> (r: Result<(), TaskVimError>)
        requires
            wf(*old(self)),
        ensures
            wf(*final(self)),
            exists|id: u128| rel_add_task(*old(self), *final(self), id, title@, r),
    {
        let id = crate::domain::fresh_task_id();
        self.add_task_with_id(id, title)
    }

    /// Create a task just below the selected one: every stored position
    /// above the selected task's moves up one, and the new task takes
    /// the freed slot; the selection advances one row. Fails, changing
    /// nothing, on an exhausted ordering or an identifier collision.
    pub fn add_task_below_with_id(&mut self, id: u128, title: String) -> (r: Result<
        (),
        TaskVimError,
    >)
        requires
            wf(*old(self)),
        ensures
            wf(*final(self)),
            rel_add_below(*old(self), *final(self), id, title@, r),
    {
        let cur = self.current_pos();
        if self.store.contains_id(id) {
            return Err(TaskVimError::Internal(String::from_str("identifier already in use")));
        }
        if cur == i64::MAX {
            return Err(TaskVimError::Internal(String::from_str("position ordering exhausted")));
        }
        match self.store.shift_positions(cur, false) {
            Ok(_) => {},
            Err(e) => {
                return Err(e);
            },
        }
        let mut t = Task::new(title);
        t.id = id;
        t.priority = self.config.default_priority;
        t.position = cur + 1;
        proof {
            lemma_shift_keeps_ids(old(self).store.tasks_view(), cur, false);
        }
        self.store.save_task(&t);
        let ghost nt = t@;
        self.effects.push(Effect::Hook(HookKind::TaskCreate, t));
        proof {
            assert(effects_view(self.effects@) =~= effects_view(old(self).effects@).push(
                EffectView::HookFired(HookKind::TaskCreate, nt),
            ));
        }
        match self.reload_tasks() {
            Ok(_) => {},
            Err(e) => {
                return Err(e);
            },
        }
        if self.tasks.len() > 0 && self.selected_index < self.tasks.len() - 1 {
            self.selected_index = self.selected_index + 1;
        }
        proof {
            assert(created_shape(
                nt,
                id,
                title@,
                old(self).config.default_priority,
                cur_pos(*old(self)) + 1,
            ));
        }
        Ok(())
    }

    /// Create a task just below the selection, under a fresh identifier.
    pub fn add_task_below(&mut self, title: String) -> (r: Result<(), TaskVimError>)
        requires
            wf(*old(self)),
        ensures
            wf(*final(self)),
            exists|id: u128| rel_add_below(*old(self), *final(self), id, title@, r),
    {
        let id = crate::domain::fresh_task_id();
        self.add_task_below_with_id(id, title)
    }

    /// Create a task just above the selected one: every stored position
    /// at or above the selected task's moves up one, and the new task
    /// takes the selected task's old position. The selection stays.
    pub fn add_task_above_with_id(&mut self, id: u128, title: String) -> (r: Result<
        (),
        TaskVimError,
    >)
        requires
            wf(*old(self)),
        ensures
            wf(*final(self)),
            rel_add_above(*old(self), *final(self), id, title@, r),
    {
        let cur = self.current_pos();
        if self.store.contains_id(id) {
            return Err(TaskVimError::Internal(String::from_str("identifier already in use")));
        }
        match self.store.shift_positions(cur, true) {
            Ok(_) => {},
            Err(e) => {
                return Err(e);
            },
        }
        let mut t = Task::new(title);
        t.id = id;
        t.priority = self.config.default_priority;
        t.position = cur;
        proof {
            lemma_shift_keeps_ids(old(self).store.tasks_view(), cur, true);
        }
        self.store.save_task(&t);
        let ghost nt = t@;
        self.effects.push(Effect::Hook(HookKind::TaskCreate, t));
        proof {
            assert(effects_view(self.effects@) =~= effects_view(old(self).effects@).push(
                EffectView::HookFired(HookKind::TaskCreate, nt),
            ));
        }
        let r = self.reload_tasks();
        proof {
            assert(created_shape(
                nt,
                id,
                title@,
                old(self).config.default_priority,
                cur_pos(*old(self)) as int,
            ));
        }
        r
    }

    /// Create a task just above the selection, under a fresh identifier.
    pub fn add_task_above(&mut self, title: String) -> (r: Result<(), TaskVimError>)
        requires
            wf(*old(self)),
        ensures
            wf(*final(self)),
            exists|id: u128| rel_add_above(*old(self), *final(self), id, title@, r),
    {
        let id = crate::domain::fresh_task_id();
        self.add_task_above_with_id(id, title)
    }

    /// Record the prior state in the undo log, clear the redo log, and
    /// store the mutated task: the shared shape of every history-tracked
    /// in-place mutation.
    fn apply_tracked(&mut self, pre_t: &Task, post_t: &Task)
        requires
            old(self).store.wf(),
            old(self).store.next_seq < u64::MAX,
            priority_valid(pre_t@.priority),
            priority_valid(post_t@.priority),
        ensures
            final(self).store.wf(),
            tracked_mutation(old(self).store, final(self).store, pre_t@, post_t@),
            *final(self) == (AppState { store: final(self).store, ..*old(self) }),
    {
        self.store.push_history(pre_t);
        self.store.clear_redo();
        self.store.save_task(post_t);
    }

    /// Advance the selected task's status one step along the cycle,
    /// recording its prior state for undo. On an empty view nothing
    /// changes; an exhausted history sequence fails without change.
    pub fn cycle_status(&mut self) -> (r: Result<(), TaskVimError>)
        requires
            wf(*old(self)),
        ensures
            wf(*final(self)),
            rel_cycle(*old(self), *final(self), r),
    {
        if self.selected_index >= self.tasks.len() {
            return Ok(());
        }
        if self.store.next_seq == u64::MAX {
            return Err(TaskVimError::Internal(String::from_str("history sequence exhausted")));
        }
        proof {
            lemma_view_task_in_store(*self, self.selected_index as int);
        }
        let victim = self.tasks[self.selected_index].clone();
        let mut post_t = victim.clone();
        post_t.status = post_t.status.cycle();
        post_t.updated_at = crate::domain::now_millis();
        let ghost u = post_t@.updated_at;
        self.apply_tracked(&victim, &post_t);
        self.effects.push(Effect::Hook(HookKind::StatusChange, post_t));
        proof {
            assert(effects_view(self.effects@) =~= effects_view(old(self).effects@).push(
                EffectView::HookFired(
                    HookKind::StatusChange,
                    TaskView {
                        status: old(self).tasks@[old(self).selected_index as int]@.status.cycled(),
                        updated_at: u,
                        ..old(self).tasks@[old(self).selected_index as int]@
                    },
                ),
            ));
        }
        let r = self.reload_tasks();
        r
    }

    /// Raise the selected task's priority by one, up to 5, recording its
    /// prior state for undo.
    pub fn increase_priority(&mut self) -> (r: Result<(), TaskVimError>)
        requires
            wf(*old(self)),
        ensures
            wf(*final(self)),
            rel_increase(*old(self), *final(self), r),
    {
        if self.selected_index >= self.tasks.len() {
            return Ok(());
        }
        proof {
            lemma_view_task_in_store(*self, self.selected_index as int);
        }
        let victim = self.tasks[self.selected_index].clone();
        if victim.priority >= 5 {
            return Ok(());
        }
        if self.store.next_seq == u64::MAX {
            return Err(TaskVimError::Internal(String::from_str("history sequence exhausted")));
        }
        let mut post_t = victim.clone();
        post_t.priority = post_t.priority + 1;
        self.apply_tracked(&victim, &post_t);
        let r = self.reload_tasks();
        r
    }

    /// Lower the selected task's priority by one, down to 1, recording
    /// its prior state for undo.
    pub fn decrease_priority(&mut self) -> (r: Result<(), TaskVimError>)
        requires
            wf(*old(self)),
        ensures
            wf(*final(self)),
            rel_decrease(*old(self), *final(self), r),
    {
        if self.selected_index >= self.tasks.len() {
            return Ok(());
        }
        proof {
            lemma_view_task_in_store(*self, self.selected_index as int);
        }
        let victim = self.tasks[self.selected_index].clone();
        if victim.priority <= 1 {
            return Ok(());
        }
        if self.store.next_seq == u64::MAX {
            return Err(TaskVimError::Internal(String::from_str("history sequence exhausted")));
        }
        let mut post_t = victim.clone();
        post_t.priority = post_t.priority - 1;
        self.apply_tracked(&victim, &post_t);
        let r = self.reload_tasks();
        r
    }

    /// Find the first viewed task with the identifier.
    fn find_in_view(&self, id: u128) -> (r: Option<(usize, Task)>)
        ensures
            match r {
                Some(p) => p.0 < self.tasks@.len() && find_id(views_of(self.tasks@), id)
                    == p.0 as int && p.1@ == self.tasks@[p.0 as int]@,
                None => find_id(views_of(self.tasks@), id) == -1,
            },
    {
        let mut i: usize = 0;
        while i < self.tasks.len()
            invariant
                i <= self.tasks@.len(),
                forall|k: int| 0 <= k < i ==> (#[trigger] views_of(self.tasks@)[k]).id != id,
            decreases self.tasks@.len() - i,
        {
            if self.tasks[i].id == id {
                proof {
                    assert(views_of(self.tasks@)[i as int].id == id);
                    lemma_find_id_at(views_of(self.tasks@), id, i as int);
                }
                return Some((i, self.tasks[i].clone()));
            }
            i += 1;
        }
        proof {
            lemma_find_id_none(views_of(self.tasks@), id);
        }
        None
    }

    /// Commit the insert buffer as the edited task's new title,
    /// recording the prior state for undo. The editing marker is cleared
    /// whether or not the task is still in the view.
    pub fn commit_edit(&mut self) -> (r: Result<(), TaskVimError>)
        requires
            wf(*old(self)),
        ensures
            wf(*final(self)),
            rel_commit_edit(*old(self), *final(self), r),
    {
        let id = match self.editing_task_id {
            None => {
                return Ok(());
            },
            Some(id) => id,
        };
        match self.find_in_view(id) {
            None => {
                self.editing_task_id = None;
                Ok(())
            },
            Some((vi, victim)) => {
                if self.store.next_seq == u64::MAX {
                    return Err(
                        TaskVimError::Internal(String::from_str("history sequence exhausted")),
                    );
                }
                proof {
                    lemma_view_task_in_store(*self, vi as int);
                }
                let mut post_t = victim.clone();
                post_t.title = self.command_buffer.clone();
                post_t.updated_at = crate::domain::now_millis();
                let ghost ptv = post_t@;
                self.apply_tracked(&victim, &post_t);
                self.effects.push(Effect::Hook(HookKind::TaskUpdate, post_t));
                proof {
                    assert(effects_view(self.effects@) =~= effects_view(old(self).effects@).push(
                        EffectView::HookFired(HookKind::TaskUpdate, ptv),
                    ));
                    assert(edited_title(
                        ptv,
                        views_of(old(self).tasks@)[vi as int],
                        old(self).command_buffer@,
                    ));
                }
                self.editing_task_id = None;
                let r = self.reload_tasks();
                r
            },
        }
    }

    /// Revert the newest tracked mutation: the snapshot on top of the
    /// undo log becomes the task's stored state; the state it replaces
    /// is pushed onto the redo log when the task is still in the view;
    /// the consumed entry is removed. A no-op when the undo log is
    /// empty.
    pub fn undo(&mut self) -> (r: Result<(), TaskVimError>)
        requires
            wf(*old(self)),
        ensures
            wf(*final(self)),
            rel_undo(*old(self), *final(self), r),
    {
        let (hid, snap) = match self.store.get_latest_history() {
            None => {
                return Ok(());
            },
            Some(p) => p,
        };
        proof {
            let l = old(self).store.history_view();
            assert(l[l.len() - 1] == l.last());
            assert(priority_valid(snap@.priority));
        }
        match self.find_in_view(snap.id) {
            Some((vi, current)) => {
                if self.store.next_seq == u64::MAX {
                    return Err(
                        TaskVimError::Internal(String::from_str("history sequence exhausted")),
                    );
                }
                proof {
                    lemma_view_task_in_store(*self, vi as int);
                }
                self.store.push_redo(&current);
            },
            None => {},
        }
        self.store.save_task(&snap);
        self.store.delete_history_entry(hid);
        let r = self.reload_tasks();
        r
    }

    /// Reapply the newest undone mutation: symmetric to `undo`.
    pub fn redo(&mut self) -> (r: Result<(), TaskVimError>)
        requires
            wf(*old(self)),
        ensures
            wf(*final(self)),
            rel_redo(*old(self), *final(self), r),
    {
        let (rid, snap) = match self.store.get_latest_redo() {
            None => {
                return Ok(());
            },
            Some(p) => p,
        };
        proof {
            let l = old(self).store.redo_view();
            assert(l[l.len() - 1] == l.last());
            assert(priority_valid(snap@.priority));
        }
        match self.find_in_view(snap.id) {
            Some((vi, current)) => {
                if self.store.next_seq == u64::MAX {
                    return Err(
                        TaskVimError::Internal(String::from_str("history sequence exhausted")),
                    );
                }
                proof {
                    lemma_view_task_in_store(*self, vi as int);
                }
                self.store.push_history(&current);
            },
            None => {},
        }
        self.store.save_task(&snap);
        self.store.delete_redo_entry(rid);
        let r = self.reload_tasks();
        r
    }

    /// Delete the anchored visual range: the rows from the smaller of
    /// anchor and selection to the larger, capped at the last row. Mode
    /// and anchor are left for the caller.
    pub fn delete_visual_selection(&mut self) -> (r: Result<(), TaskVimError>)
        requires
            wf(*old(self)),
        ensures
            wf(*final(self)),
            rel_delete_visual(*old(self), *final(self), r),
    {
        let a = match self.selection_anchor {
            None => {
                return Ok(());
            },
            Some(a) => a,
        };
        if self.tasks.len() == 0 {
            return Ok(());
        }
        let len = self.tasks.len();
        let lo = if a < self.selected_index {
            a
        } else {
            self.selected_index
        };
        if lo >= len {
            return Ok(());
        }
        let mut hi = if a > self.selected_index {
            a
        } else {
            self.selected_index
        };
        if hi >= len {
            hi = len - 1;
        }
        proof {
            assert(lo as int == visual_lo(*old(self), a as int));
            assert(hi as int == visual_hi(*old(self), a as int));
        }
        let mut ids: Vec<u128> = Vec::new();
        let mut k: usize = lo;
        while k <= hi
            invariant
                *self == *old(self),
                lo <= k <= hi + 1,
                len == self.tasks@.len(),
                hi < len,
                ids@.len() == k - lo,
                forall|t: int|
                    0 <= t < ids@.len() ==> ids@[t] == (#[trigger] views_of(self.tasks@)[
                        lo + t
                    ]).id,
            decreases hi + 1 - k,
        {
            ids.push(self.tasks[k].id);
            proof {
                assert(views_of(self.tasks@)[k as int].id == self.tasks@[k as int]@.id);
            }
            k += 1;
        }
        proof {
            assert(ids@ =~= range_ids(*old(self), a as int));
        }
        self.store.delete_ids(&ids);
        let r = self.reload_tasks();
        r
    }

    /// Delete under the current mode: the anchored range in Visual mode,
    /// returning to Normal mode with the anchor cleared; otherwise the
    /// selected task alone.
    pub fn delete_selected_task(&mut self) -> (r: Result<(), TaskVimError>)
        requires
            wf(*old(self)),
        ensures
            wf(*final(self)),
            rel_delete_selected(*old(self), *final(self), r),
    {
        if matches!(self.mode, Mode::Visual) {
            let r = self.delete_visual_selection();
            let ghost mid = *self;
            self.mode = Mode::Normal;
            self.selection_anchor = None;
            proof {
                assert(rel_delete_visual(*old(self), mid, r));
            }
            r
        } else {
            if self.selected_index >= self.tasks.len() {
                return Ok(());
            }
            let id = self.tasks[self.selected_index].id;
            proof {
                assert(old(self).tasks@[old(self).selected_index as int]@.id == id);
            }
            self.store.delete_task(id);
            let r = self.reload_tasks();
            r
        }
    }

    /// Paste a copy of the yanked task just below the selection, under
    /// the given fresh identifier: stored positions above the selected
    /// task's move up one, the copy takes the freed slot, the redo log
    /// is cleared, and the selection advances one row.
    pub fn paste_below_with_id(&mut self, id: u128) -> (r: Result<(), TaskVimError>)
        requires
            wf(*old(self)),
        ensures
            wf(*final(self)),
            rel_paste(*old(self), *final(self), id, r),
    {
        let y = match &self.yanked_task {
            None => {
                return Ok(());
            },
            Some(y) => y.clone(),
        };
        let cur = self.current_pos();
        if self.store.contains_id(id) {
            return Err(TaskVimError::Internal(String::from_str("identifier already in use")));
        }
        if cur == i64::MAX {
            return Err(TaskVimError::Internal(String::from_str("position ordering exhausted")));
        }
        match self.store.shift_positions(cur, false) {
            Ok(_) => {},
            Err(e) => {
                return Err(e);
            },
        }
        let now = crate::domain::now_millis();
        let mut nt = y;
        nt.id = id;
        nt.created_at = now;
        nt.updated_at = now;
        nt.position = cur + 1;
        proof {
            lemma_shift_keeps_ids(old(self).store.tasks_view(), cur, false);
            assert(pasted_shape(nt@, old(self).yanked_task->Some_0@, id, cur as int + 1));
        }
        self.store.save_task(&nt);
        self.store.clear_redo();
        match self.reload_tasks() {
            Ok(_) => {},
            Err(e) => {
                return Err(e);
            },
        }
        if self.tasks.len() > 0 && self.selected_index < self.tasks.len() - 1 {
            self.selected_index = self.selected_index + 1;
        }
        Ok(())
    }

    /// Paste a copy of the yanked task just below the selection, under a
    /// freshly drawn identifier.
    pub fn paste_below(&mut self) -> (r: Result<(), TaskVimError>)
        requires
            wf(*old(self)),
        ensures
            wf(*final(self)),
            exists|id: u128| rel_paste(*old(self), *final(self), id, r),
    {
        let id = crate::domain::fresh_task_id();
        self.paste_below_with_id(id)
    }

    /// Toggle whether the selected task's project is collapsed, and
    /// reload the view so the collapse takes effect.
    pub fn toggle_collapse(&mut self) -> (r: Result<(), TaskVimError>)
        requires
            wf(*old(self)),
        ensures
            wf(*final(self)),
            rel_toggle_collapse(*old(self), *final(self), r),
    {
        if self.selected_index >= self.tasks.len() {
            return Ok(());
        }
        let p = match &self.tasks[self.selected_index].project {
            None => {
                return Ok(());
            },
            Some(p) => p.clone(),
        };
        proof {
            assert(old(self).tasks@[old(self).selected_index as int]@.project matches Some(q)
                && q@ == p@);
        }
        let ghost c = strings_view(self.collapsed_projects@);
        if contains_str_vec(&self.collapsed_projects, p.as_str()) {
            // remove it
            let mut out: Vec<String> = Vec::new();
            let mut i: usize = 0;
            proof {
                assert(strings_view(out@) =~= remove_name(
                    strings_view(self.collapsed_projects@.take(0)),
                    p@,
                )) by {
                    assert(strings_view(self.collapsed_projects@.take(0)) =~= Seq::<
                        Seq<char>,
                    >::empty());
                    assert(remove_name(Seq::<Seq<char>>::empty(), p@) =~= Seq::<
                        Seq<char>,
                    >::empty()) by {
                        reveal(Seq::filter);
                    }
                }
            }
            while i < self.collapsed_projects.len()
                invariant
                    *self == *old(self),
                    i <= self.collapsed_projects@.len(),
                    strings_view(out@) =~= remove_name(
                        strings_view(self.collapsed_projects@.take(i as int)),
                        p@,
                    ),
                decreases self.collapsed_projects@.len() - i,
            {
                let ghost prefix = strings_view(self.collapsed_projects@.take(i as int));
                let ghost before = strings_view(out@);
                if !str_eq(self.collapsed_projects[i].as_str(), p.as_str()) {
                    out.push(self.collapsed_projects[i].clone());
                    proof {
                        assert(strings_view(out@) =~= before.push(
                            self.collapsed_projects@[i as int]@,
                        ));
                    }
                }
                proof {
                    assert(strings_view(self.collapsed_projects@.take(i as int + 1))
                        =~= prefix.push(self.collapsed_projects@[i as int]@));
                    lemma_remove_name_push(prefix, self.collapsed_projects@[i as int]@, p@);
                }
                i += 1;
            }
            proof {
                assert(self.collapsed_projects@.take(self.collapsed_projects@.len() as int)
                    =~= self.collapsed_projects@);
            }
            self.collapsed_projects = out;
        } else {
            self.collapsed_projects.push(p);
            proof {
                assert(strings_view(self.collapsed_projects@) =~= c.push(
                    old(self).tasks@[old(self).selected_index as int]@.project->Some_0@,
                ));
            }
        }
        let r = self.reload_tasks();
        r
    }

    /// The sorted, de-duplicated list of all project names in the store,
    /// not restricted to the current view.
    pub fn get_all_projects(&self) -> (r: Vec<String>)
        ensures
            projects_spec(self.store, strings_view(r@)),
    {
        let mut out: Vec<String> = Vec::new();
        let mut i: usize = 0;
        while i < self.store.tasks.len()
            invariant
                i <= self.store.tasks@.len(),
                forall|a: int, b: int|
                    0 <= a < b < strings_view(out@).len() ==> crate::text::lex_lt(
                        #[trigger] strings_view(out@)[a],
                        #[trigger] strings_view(out@)[b],
                    ),
                forall|x: Seq<char>| #[trigger]
                    strings_view(out@).contains(x) <==> exists|k: int|
                        0 <= k < i && ((#[trigger] self.store.tasks_view()[k]).project matches Some(
                            p,
                        ) && p@ == x),
            decreases self.store.tasks@.len() - i,
        {
            let ghost pre_out = strings_view(out@);
            match &self.store.tasks[i].project {
                Some(p) => {
                    let pc = p.clone();
                    proof {
                        assert(self.store.tasks_view()[i as int].project matches Some(q) && q@
                            == pc@);
                    }
                    insert_sorted_unique(&mut out, pc);
                },
                None => {
                    proof {
                        assert(self.store.tasks_view()[i as int].project is None);
                    }
                },
            }
            i += 1;
        }
        out
    }

    /// Move the active filter to the cyclically next project.
    pub fn next_project(&mut self) -> (r: Result<(), TaskVimError>)
        requires
            wf(*old(self)),
        ensures
            wf(*final(self)),
            rel_project_nav(*old(self), *final(self), 1, r),
    {
        self.project_nav(true)
    }

    /// Move the active filter to the cyclically previous project.
    pub fn prev_project(&mut self) -> (r: Result<(), TaskVimError>)
        requires
            wf(*old(self)),
        ensures
            wf(*final(self)),
            rel_project_nav(*old(self), *final(self), -1, r),
    {
        self.project_nav(false)
    }

    /// Shared body of the project navigation.
    fn project_nav(&mut self, forward: bool) -> (r: Result<(), TaskVimError>)
        requires
            wf(*old(self)),
        ensures
            wf(*final(self)),
            rel_project_nav(*old(self), *final(self), if forward { 1int } else { -1int }, r),
    {
        let ghost step: int = if forward {
            1
        } else {
            -1
        };
        let projects = self.get_all_projects();
        let ghost ps = strings_view(projects@);
        if projects.len() == 0 {
            proof {
                assert(projects_spec(old(self).store, ps));
            }
            return Ok(());
        }
        // locate the current project in the sorted list
        let cur: Option<String> = if self.selected_index < self.tasks.len() {
            match &self.tasks[self.selected_index].project {
                Some(p) => Some(p.clone()),
                None => None,
            }
        } else {
            None
        };
        proof {
            if cur is Some {
                assert(selected_project(*old(self)) == Some(cur->Some_0@));
            } else {
                assert(selected_project(*old(self)) is None);
            }
        }
        let fallback: usize = if forward {
            0
        } else {
            projects.len() - 1
        };
        let idx: usize = match &cur {
            Some(p) => {
                let mut j: usize = 0;
                let mut found: Option<usize> = None;
                while j < projects.len()
                    invariant
                        j <= projects@.len(),
                        ps == strings_view(projects@),
                        match found {
                            None => forall|k: int| 0 <= k < j ==> (#[trigger] ps[k]) != p@,
                            Some(f) => f < projects@.len() && idx_of(ps, p@) == f as int,
                        },
                    decreases projects@.len() - j,
                {
                    if matches!(found, None) {
                        if str_eq(projects[j].as_str(), p.as_str()) {
                            proof {
                                assert(ps[j as int] == p@);
                                lemma_idx_of_at(ps, p@, j as int);
                            }
                            found = Some(j);
                        }
                    }
                    j += 1;
                }
                match found {
                    Some(f) => {
                        if forward {
                            if f + 1 < projects.len() {
                                f + 1
                            } else {
                                0
                            }
                        } else {
                            if f > 0 {
                                f - 1
                            } else {
                                projects.len() - 1
                            }
                        }
                    },
                    None => {
                        proof {
                            lemma_idx_of_none(ps, p@);
                        }
                        fallback
                    },
                }
            },
            None => fallback,
        };
        proof {
            assert(idx as int == project_target(*old(self), ps, step));
        }
        let fexpr = String::from_str("project=").concat(projects[idx].as_str());
        proof {
            assert(fexpr@ == "project="@ + ps[idx as int]);
        }
        // validate before applying, keeping the previous filter on failure
        let preds = match Filter::parse(fexpr.as_str()) {
            Ok(v) => v,
            Err(_) => {
                proof {
                    assert(false);
                }
                return Ok(());
            },
        };
        let mut t: usize = 0;
        while t < preds.len()
            invariant
                t <= preds@.len(),
                *self == *old(self),
                wf(*old(self)),
                ps == strings_view(projects@),
                projects_spec(old(self).store, ps),
                0 <= idx < ps.len(),
                idx as int == project_target(*old(self), ps, step),
                step == (if forward { 1int } else { -1int }),
                fexpr@ == "project="@ + ps[idx as int],
                crate::query::filters_view(preds@) =~= spec_parse(fexpr@),
                forall|k: int|
                    0 <= k < t ==> crate::query::column_of(
                        (#[trigger] spec_parse(fexpr@)[k]).field,
                    ) is Some,
            decreases preds@.len() - t,
        {
            match preds[t].to_sql_condition() {
                Ok(_) => {
                    proof {
                        assert(spec_parse(fexpr@)[t as int] == preds@[t as int]@);
                    }
                },
                Err(e) => {
                    proof {
                        assert(spec_parse(fexpr@)[t as int] == preds@[t as int]@);
                        assert(!preds_valid(spec_parse(fexpr@)));
                        assert(projects_spec(old(self).store, ps));
                    }
                    return Err(e);
                },
            }
            t += 1;
        }
        proof {
            assert(projects_spec(old(self).store, ps));
            assert(preds_valid(spec_parse(fexpr@)));
        }
        self.filter_string = Some(fexpr);
        match self.reload_tasks() {
            Ok(_) => {},
            Err(e) => {
                return Err(e);
            },
        }
        self.selected_index = 0;
        Ok(())
    }

    /// Interpret one action: the canonical, exhaustive action table.
    pub fn handle_action(&mut self, action: Action) -> (r: Result<(), TaskVimError>)
        requires
            wf(*old(self)),
        ensures
            wf(*final(self)),
            rel_handle_action(*old(self), *final(self), action, r),
    {
        match action {
            Action::Quit => {
                self.running = false;
                Ok(())
            },
            Action::MoveDown => {
                self.move_selection_down();
                Ok(())
            },
            Action::MoveUp => {
                self.move_selection_up();
                Ok(())
            },
            Action::MoveToTop => {
                self.move_to_top();
                Ok(())
            },
            Action::MoveToBottom => {
                self.move_to_bottom();
                Ok(())
            },
            Action::PageDown => {
                self.page_down();
                Ok(())
            },
            Action::PageUp => {
                self.page_up();
                Ok(())
            },
            Action::Delete => self.delete_selected_task(),
            Action::CycleStatus => self.cycle_status(),
            Action::IncreasePriority => self.increase_priority(),
            Action::DecreasePriority => self.decrease_priority(),
            Action::EnterInsert => {
                if self.tasks.len() == 0 {
                    self.mode = Mode::Insert;
                    self.insert_action = InsertAction::AddEnd;
                } else {
                    self.start_editing();
                }
                Ok(())
            },
            Action::EnterInsertBelow => {
                self.mode = Mode::Insert;
                self.insert_action = InsertAction::AddBelow;
                Ok(())
            },
            Action::EnterInsertAbove => {
                self.mode = Mode::Insert;
                self.insert_action = InsertAction::AddAbove;
                Ok(())
            },
            Action::EnterVisual => {
                self.mode = Mode::Visual;
                self.selection_anchor = Some(self.selected_index);
                Ok(())
            },
            Action::EnterCommand => {
                self.mode = Mode::Command;
                self.command_buffer = String::new();
                Ok(())
            },
            Action::Cancel => {
                self.mode = Mode::Normal;
                self.selection_anchor = None;
                self.editing_task_id = None;
                Ok(())
            },
            Action::Undo => self.undo(),
            Action::Redo => self.redo(),
            Action::ToggleCollapse => self.toggle_collapse(),
            Action::NextProject => self.next_project(),
            Action::PrevProject => self.prev_project(),
            Action::Yank => {
                self.yank_selected();
                Ok(())
            },
            Action::Paste => self.paste_below(),
            Action::EnterSearch => {
                self.mode = Mode::Search;
                self.command_buffer = String::new();
                Ok(())
            },
        }
    }

    /// Execute one colon-command.
    pub fn execute_command(&mut self, cmd: &str) -> (r: Result<(), TaskVimError>)
        requires
            wf(*old(self)),
        ensures
            wf(*final(self)),
            rel_execute_command(*old(self), *final(self), cmd@, r),
    {
        if str_eq(cmd, "q") || str_eq(cmd, "wq") {
            self.running = false;
            Ok(())
        } else if str_eq(cmd, "w") {
            Ok(())
        } else if str_eq(cmd, "sort priority") {
            self.sort_by = SortBy::Priority;
            let r = self.reload_tasks();
            r
        } else if str_eq(cmd, "sort created") {
            self.sort_by = SortBy::CreatedAt;
            let r = self.reload_tasks();
            r
        } else if str_eq(cmd, "sort position") {
            self.sort_by = SortBy::Position;
            let r = self.reload_tasks();
            r
        } else if str_eq(cmd, "stats") {
            self.mode = Mode::Stats;
            Ok(())
        } else if str_starts_with(cmd, "lua ") {
            let len = cmd.unicode_len();
            proof {
                reveal_strlit("lua ");
            }
            let code = cmd.substring_char(4, len).to_owned();
            proof {
                assert(code@ =~= cmd@.skip(4));
            }
            self.effects.push(Effect::Script(code));
            proof {
                assert(effects_view(self.effects@) =~= effects_view(old(self).effects@).push(
                    EffectView::ScriptRun(cmd@.skip(4)),
                ));
            }
            Ok(())
        } else if str_starts_with(cmd, "filter ") {
            let len = cmd.unicode_len();
            proof {
                reveal_strlit("filter ");
            }
            let rest = cmd.substring_char(7, len);
            proof {
                assert(rest@ =~= cmd@.skip(7));
            }
            // a blank expression clears the filter
            let mut blank = true;
            let rlen = rest.unicode_len();
            let mut i: usize = 0;
            while i < rlen
                invariant
                    *self == *old(self),
                    i <= rlen,
                    rlen == rest@.len(),
                    blank ==> forall|k: int| 0 <= k < i ==> crate::query::is_space(
                        #[trigger] rest@[k],
                    ),
                    !blank ==> !all_spaces(rest@),
                decreases rlen - i,
            {
                let c = rest.get_char(i);
                if !(c == ' ' || c == '\t' || c == '\n' || c == '\r') {
                    assert(!crate::query::is_space(rest@[i as int]));
                    blank = false;
                }
                i += 1;
            }
            if blank {
                self.filter_string = None;
                let r = self.reload_tasks();
                return r;
            }
            // validate before applying, keeping the previous filter on failure
            let preds = match Filter::parse(rest) {
                Ok(v) => v,
                Err(_) => {
                    proof {
                        assert(false);
                    }
                    return Ok(());
                },
            };
            let mut t: usize = 0;
            while t < preds.len()
                invariant
                    t <= preds@.len(),
                    *self == *old(self),
                    wf(*old(self)),
                    rest@ =~= cmd@.skip(7),
                    !all_spaces(rest@),
                    match_at(cmd@, "filter "@, 0),
                    !(cmd@ == "q"@ || cmd@ == "wq"@ || cmd@ == "w"@ || cmd@ == "sort priority"@
                        || cmd@ == "sort created"@ || cmd@ == "sort position"@ || cmd@
                        == "stats"@ || match_at(cmd@, "lua "@, 0)),
                    crate::query::filters_view(preds@) =~= spec_parse(rest@),
                    forall|k: int|
                        0 <= k < t ==> crate::query::column_of(
                            (#[trigger] spec_parse(rest@)[k]).field,
                        ) is Some,
                decreases preds@.len() - t,
            {
                match preds[t].to_sql_condition() {
                    Ok(_) => {
                        proof {
                            assert(spec_parse(rest@)[t as int] == preds@[t as int]@);
                        }
                    },
                    Err(e) => {
                        proof {
                            assert(spec_parse(rest@)[t as int] == preds@[t as int]@);
                            assert(!preds_valid(spec_parse(rest@)));
                        }
                        return Err(e);
                    },
                }
                t += 1;
            }
            let restw = rest.to_owned();
            self.filter_string = Some(restw);
            let r = self.reload_tasks();
            r
        } else if str_eq(cmd, "filter") {
            self.filter_string = None;
            let r = self.reload_tasks();
            r
        } else {
            Ok(())
        }
    }

    /// A copy of the events of a register, if it exists.
    fn macro_events_of(&self, reg: char) -> (r: Option<Vec<KeyCombination>>)
        ensures
            match r {
                Some(v) => macro_lookup(macros_view(self.macros@), reg) == Some(v@),
                None => macro_lookup(macros_view(self.macros@), reg) is None,
            },
    {
        let ghost ms = macros_view(self.macros@);
        let mut i: usize = 0;
        proof {
            assert(ms.skip(0) =~= ms);
        }
        while i < self.macros.len()
            invariant
                i <= self.macros@.len(),
                ms == macros_view(self.macros@),
                macro_lookup(ms, reg) == macro_lookup(ms.skip(i as int), reg),
            decreases self.macros@.len() - i,
        {
            proof {
                assert(ms.skip(i as int)[0] == ms[i as int]);
                assert(ms.skip(i as int).drop_first() =~= ms.skip(i as int + 1));
            }
            if self.macros[i].register == reg {
                let evs = clone_keys(&self.macros[i].events);
                return Some(evs);
            }
            i += 1;
        }
        proof {
            assert(ms.skip(ms.len() as int).len() == 0);
        }
        None
    }

    /// Open a fresh, empty register at the front, shadowing any earlier
    /// recording under the same name.
    fn start_register(&mut self, reg: char)
        ensures
            *final(self) == (AppState { macros: final(self).macros, ..*old(self) }),
            macro_lookup(macros_view(final(self).macros@), reg) == Some(
                Seq::<KeyCombination>::empty(),
            ),
            forall|r2: char|
                r2 != reg ==> #[trigger] macro_lookup(macros_view(final(self).macros@), r2)
                    == macro_lookup(macros_view(old(self).macros@), r2),
            macros_view(final(self).macros@).len() > 0 && macros_view(final(self).macros@)[0].0
                == reg,
    {
        self.macros.insert(0, MacroReg { register: reg, events: Vec::new() });
        proof {
            let nv = macros_view(self.macros@);
            assert(nv[0] == (reg, Seq::<KeyCombination>::empty()));
            assert(nv.drop_first() =~= macros_view(old(self).macros@));
        }
    }

    /// Append one raw key event to the active register, which recording
    /// keeps at the front.
    fn record_key_exec(&mut self, reg: char, key: KeyCombination)
        requires
            old(self).macros@.len() > 0,
            macros_view(old(self).macros@)[0].0 == reg,
        ensures
            recorded(*old(self), *final(self), reg, key),
            *final(self) == (AppState { macros: final(self).macros, ..*old(self) }),
            macros_view(final(self).macros@).len() > 0 && macros_view(final(self).macros@)[0].0
                == reg,
    {
        let mut evs = clone_keys(&self.macros[0].events);
        evs.push(key);
        self.macros.set(0, MacroReg { register: reg, events: evs });
        proof {
            let ov = macros_view(old(self).macros@);
            let nv = macros_view(self.macros@);
            assert(nv[0] == (reg, ov[0].1.push(key)));
            assert(nv.drop_first() =~= ov.drop_first());
            assert(macro_lookup(ov, reg) == Some(ov[0].1));
            assert(macro_lookup(nv, reg) == Some(ov[0].1.push(key)));
            assert forall|r2: char| r2 != reg implies #[trigger] macro_lookup(nv, r2)
                == macro_lookup(ov, r2) by {
                assert(macro_lookup(nv, r2) == macro_lookup(nv.drop_first(), r2));
                assert(macro_lookup(ov, r2) == macro_lookup(ov.drop_first(), r2));
            }
        }
    }

    /// Replay recorded events through the identical pipeline, aborting
    /// on the first failure.
    #[verifier::rlimit(80)]
    fn replay_events(&mut self, events: &Vec<KeyCombination>, depth: u64) -> (r: Result<
        (),
        TaskVimError,
    >)
        requires
            wf(*old(self)),
        ensures
            wf(*final(self)),
            replay_rel(*old(self), *final(self), events@, depth as nat, r),
        decreases depth, 1int,
    {
        let ghost entry = *old(self);
        let ghost mut chain: Seq<AppState> = seq![entry];
        let mut i: usize = 0;
        proof {
            assert(events@.take(0) =~= Seq::<KeyCombination>::empty());
            assert(replay_chain(chain, events@.take(0), depth as nat));
        }
        while i < events.len()
            invariant
                entry == *old(self),
                wf(*self),
                i <= events@.len(),
                chain.len() == i + 1,
                chain[0] == entry,
                chain.last() == *self,
                replay_chain(chain, events@.take(i as int), depth as nat),
            decreases events@.len() - i,
        {
            let ghost m = *self;
            let r0 = self.handle_key_at(events[i], depth);
            proof {
                assert(handle_key_rel(m, *self, events@[i as int], depth as nat, r0));
            }
            proof {
                lemma_key_rel_weaken(m, *self, events@[i as int], depth as nat, r0);
            }
            match r0 {
                Ok(_) => {
                    proof {
                        assert(r0->Ok_0 == ());
                        assert(r0 == Ok::<(), TaskVimError>(()));
                        assert(step_key_rel(m, *self, events@[i as int], depth as nat, Ok(())));
                        let chain2 = chain.push(*self);
                        assert(replay_chain(chain2, events@.take(i as int + 1), depth as nat))
                            by {
                            assert(events@.take(i as int + 1).len() == i + 1);
                            assert forall|t: int| 0 <= t < i + 1 implies step_key_rel(
                                chain2[t],
                                chain2[t + 1],
                                #[trigger] events@.take(i as int + 1)[t],
                                depth as nat,
                                Ok(()),
                            ) by {
                                assert(events@.take(i as int + 1)[t] == events@[t]);
                                if t < i {
                                    assert(chain2[t] == chain[t] && chain2[t + 1] == chain[t + 1]);
                                    assert(events@.take(i as int)[t] == events@[t]);
                                    assert(step_key_rel(
                                        chain[t],
                                        chain[t + 1],
                                        events@.take(i as int)[t],
                                        depth as nat,
                                        Ok(()),
                                    ));
                                } else {
                                    assert(chain2[t] == m && chain2[t + 1] == *self);
                                }
                            }
                        }
                        chain = chain2;
                    }
                },
                Err(e) => {
                    proof {
                        assert(step_key_rel(chain.last(), *self, events@[i as int], depth as nat, Err(e)));
                        assert(replay_chain(chain, events@.subrange(0, i as int), depth as nat))
                            by {
                            assert(events@.subrange(0, i as int) =~= events@.take(i as int));
                        }
                        assert((i as int) < events@.len());
                        assert(replay_rel(entry, *self, events@, depth as nat, Err(e)));
                    }
                    return Err(e);
                },
            }
            i += 1;
        }
        proof {
            assert(events@.take(events@.len() as int) =~= events@);
            assert(replay_chain(chain, events@, depth as nat));
        }
        Ok(())
    }

    /// The Insert-mode raw handling of one key.
    fn insert_fallback(&mut self, key: KeyCombination) -> (r: Result<(), TaskVimError>)
        requires
            wf(*old(self)),
        ensures
            wf(*final(self)),
            insert_fallback_rel(*old(self), *final(self), key, r),
    {
        match key.code {
            KeyCode::Esc => {
                self.mode = Mode::Normal;
                self.editing_task_id = None;
                Ok(())
            },
            KeyCode::Enter => {
                if self.command_buffer.as_str().is_empty() {
                    return Ok(());
                }
                let r = match self.insert_action {
                    InsertAction::AddEnd => {
                        let title = self.command_buffer.clone();
                        self.add_task(title)
                    },
                    InsertAction::AddBelow => {
                        let title = self.command_buffer.clone();
                        self.add_task_below(title)
                    },
                    InsertAction::AddAbove => {
                        let title = self.command_buffer.clone();
                        self.add_task_above(title)
                    },
                    InsertAction::Edit => self.commit_edit(),
                };
                let ghost mid = *self;
                proof {
                    assert(insert_commit_rel(*old(self), mid, r));
                }
                match r {
                    Ok(_) => {
                        proof {
                            assert(r->Ok_0 == ());
                            assert(r == Ok::<(), TaskVimError>(()));
                        }
                        self.command_buffer = String::new();
                        self.mode = Mode::Normal;
                        Ok(())
                    },
                    Err(e) => Err(e),
                }
            },
            KeyCode::Char(c) => {
                string_push(&mut self.command_buffer, c);
                Ok(())
            },
            KeyCode::Backspace => {
                string_pop(&mut self.command_buffer);
                Ok(())
            },
            _ => Ok(()),
        }
    }

    /// The Command-mode raw handling of one key.
    fn command_fallback(&mut self, key: KeyCombination) -> (r: Result<(), TaskVimError>)
        requires
            wf(*old(self)),
        ensures
            wf(*final(self)),
            command_fallback_rel(*old(self), *final(self), key, r),
    {
        match key.code {
            KeyCode::Esc => {
                self.mode = Mode::Normal;
                Ok(())
            },
            KeyCode::Enter => {
                let cmd = self.command_buffer.clone();
                let r = self.execute_command(cmd.as_str());
                let ghost mid = *self;
                proof {
                    assert(rel_execute_command(*old(self), mid, old(self).command_buffer@, r));
                }
                match r {
                    Ok(_) => {
                        proof {
                            assert(r->Ok_0 == ());
                            assert(r == Ok::<(), TaskVimError>(()));
                        }
                        self.command_buffer = String::new();
                        self.mode = Mode::Normal;
                        Ok(())
                    },
                    Err(e) => Err(e),
                }
            },
            KeyCode::Char(c) => {
                string_push(&mut self.command_buffer, c);
                Ok(())
            },
            KeyCode::Backspace => {
                string_pop(&mut self.command_buffer);
                Ok(())
            },
            _ => Ok(()),
        }
    }

    /// The Search-mode raw handling of one key.
    fn search_fallback(&mut self, key: KeyCombination) -> (r: Result<(), TaskVimError>)
        requires
            wf(*old(self)),
        ensures
            wf(*final(self)),
            search_fallback_rel(*old(self), *final(self), key, r),
    {
        match key.code {
            KeyCode::Esc => {
                self.mode = Mode::Normal;
                Ok(())
            },
            KeyCode::Enter => {
                if self.command_buffer.as_str().is_empty() {
                    self.search_query = None;
                } else {
                    let q = self.command_buffer.clone();
                    self.search_query = Some(q);
                }
                match self.reload_tasks() {
                    Ok(_) => {},
                    Err(e) => {
                        proof {
                            assert(false);
                        }
                        return Err(e);
                    },
                }
                self.command_buffer = String::new();
                self.mode = Mode::Normal;
                Ok(())
            },
            KeyCode::Char(c) => {
                string_push(&mut self.command_buffer, c);
                Ok(())
            },
            KeyCode::Backspace => {
                string_pop(&mut self.command_buffer);
                Ok(())
            },
            _ => Ok(()),
        }
    }

    /// Handle one raw key event at the given remaining replay depth.    /// Handle one raw key event at the given remaining replay depth.
    #[verifier::rlimit(80)]
    pub fn handle_key_at(&mut self, key: KeyCombination, depth: u64) -> (r: Result<
        (),
        TaskVimError,
    >)
        requires
            wf(*old(self)),
        ensures
            wf(*final(self)),
            handle_key_rel(*old(self), *final(self), key, depth as nat, r),
        decreases depth, 0int,
    {
        let qkey = KeyCombination { code: KeyCode::Char('q'), ctrl: false, alt: false, shift: false };
        // a plain q in Normal mode with nothing pending stops recording
        match self.macro_recording {
            Some(reg) => {
                if matches!(self.mode, Mode::Normal) && matches!(
                    self.pending,
                    PendingPrefix::Idle,
                ) && key == qkey {
                    self.macro_recording = None;
                    return Ok(());
                }
                self.record_key_exec(reg, key);
            },
            None => {},
        }
        let ghost mid1 = *self;
        proof {
            if old(self).macro_recording is Some {
                assert(recorded(*old(self), mid1, old(self).macro_recording->Some_0, key));
            }
        }
        // first tier: the direct keymap resolution
        match self.config.keymap.get_action(self.mode, key) {
            Some(action) => {
                let r = self.handle_action(action);
                let ghost mid2 = *self;
                if !matches!(key.code, KeyCode::Char('g')) {
                    self.pending = PendingPrefix::Idle;
                }
                proof {
                    assert(rel_handle_action(mid1, mid2, action, r));
                }
                return r;
            },
            None => {},
        }
        // second tier: mode-specific raw handling
        match self.mode {
            Mode::Normal => {
                match self.pending {
                    PendingPrefix::PrefixG => {
                        if matches!(key.code, KeyCode::Char('g')) {
                            self.pending = PendingPrefix::Idle;
                            self.selected_index = 0;
                            Ok(())
                        } else if matches!(key.code, KeyCode::Char('t')) {
                            let r = self.next_project();
                            let ghost m = *self;
                            self.pending = PendingPrefix::Idle;
                            proof {
                                assert(rel_project_nav(mid1, m, 1, r));
                            }
                            r
                        } else if matches!(key.code, KeyCode::Char('T')) {
                            let r = self.prev_project();
                            let ghost m = *self;
                            self.pending = PendingPrefix::Idle;
                            proof {
                                assert(rel_project_nav(mid1, m, -1, r));
                            }
                            r
                        } else {
                            self.pending = PendingPrefix::Idle;
                            Ok(())
                        }
                    },
                    PendingPrefix::PrefixZ => {
                        if matches!(key.code, KeyCode::Char('a')) {
                            let r = self.toggle_collapse();
                            let ghost m = *self;
                            self.pending = PendingPrefix::Idle;
                            proof {
                                assert(rel_toggle_collapse(mid1, m, r));
                            }
                            r
                        } else {
                            self.pending = PendingPrefix::Idle;
                            Ok(())
                        }
                    },
                    PendingPrefix::PrefixY => {
                        if matches!(key.code, KeyCode::Char('y')) {
                            self.yank_selected();
                            let ghost m = *self;
                            self.pending = PendingPrefix::Idle;
                            proof {
                                assert(rel_yank(mid1, m));
                            }
                            Ok(())
                        } else {
                            self.pending = PendingPrefix::Idle;
                            Ok(())
                        }
                    },
                    PendingPrefix::PrefixQ => {
                        self.pending = PendingPrefix::Idle;
                        match key.code {
                            KeyCode::Char(c) => {
                                self.start_register(c);
                                self.macro_recording = Some(c);
                                Ok(())
                            },
                            _ => Ok(()),
                        }
                    },
                    PendingPrefix::PrefixAt => {
                        self.pending = PendingPrefix::Idle;
                        let ghost pre_replay = *self;
                        match key.code {
                            KeyCode::Char(c) => {
                                match self.macro_events_of(c) {
                                    None => Ok(()),
                                    Some(events) => {
                                        if depth == 0 {
                                            return Ok(());
                                        }
                                        let r = self.replay_events(&events, depth - 1);
                                        proof {
                                            assert(pre_replay == (AppState {
                                                pending: PendingPrefix::Idle,
                                                ..mid1
                                            }));
                                            assert(macro_lookup(
                                                macros_view(mid1.macros@),
                                                c,
                                            ) == Some(events@));
                                            assert(((depth - 1) as u64) as nat == ((
                                            depth as nat) - 1) as nat);
                                            assert(replay_rel(
                                                AppState { pending: PendingPrefix::Idle, ..mid1 },
                                                *self,
                                                events@,
                                                ((depth as nat) - 1) as nat,
                                                r,
                                            ));
                                            assert(normal_fallback_deep_rel(
                                                mid1,
                                                *self,
                                                key,
                                                depth as nat,
                                                r,
                                            ));
                                            assert(dispatch_deep_rel(
                                                mid1,
                                                *self,
                                                key,
                                                depth as nat,
                                                r,
                                            ));
                                        }
                                        r
                                    },
                                }
                            },
                            _ => Ok(()),
                        }
                    },
                    PendingPrefix::Idle => {
                        match key.code {
                            KeyCode::Char(c) => {
                                if c == 'g' {
                                    self.pending = PendingPrefix::PrefixG;
                                    Ok(())
                                } else if c == 'z' {
                                    self.pending = PendingPrefix::PrefixZ;
                                    Ok(())
                                } else if c == 'y' {
                                    self.pending = PendingPrefix::PrefixY;
                                    Ok(())
                                } else if c == '@' {
                                    self.pending = PendingPrefix::PrefixAt;
                                    Ok(())
                                } else if c == 'q' {
                                    self.pending = PendingPrefix::PrefixQ;
                                    Ok(())
                                } else {
                                    Ok(())
                                }
                            },
                            _ => Ok(()),
                        }
                    },
                }
            },
            Mode::Visual => {
                if matches!(self.pending, PendingPrefix::PrefixG) && matches!(
                    key.code,
                    KeyCode::Char('g'),
                ) {
                    self.pending = PendingPrefix::Idle;
                    self.selected_index = 0;
                    Ok(())
                } else if matches!(self.pending, PendingPrefix::Idle) && matches!(
                    key.code,
                    KeyCode::Char('g'),
                ) {
                    self.pending = PendingPrefix::PrefixG;
                    Ok(())
                } else {
                    self.pending = PendingPrefix::Idle;
                    Ok(())
                }
            },
            Mode::Insert => {
                let r = self.insert_fallback(key);
                r
            },
            Mode::Command => {
                let r = self.command_fallback(key);
                r
            },
            Mode::Search => {
                let r = self.search_fallback(key);
                r
            },
            Mode::Filter => Ok(()),
            Mode::Stats => Ok(()),
        }
    }

    /// Handle one raw key event: the dispatcher's input entry point.
    pub fn handle_key(&mut self, key: KeyCombination) -> (r: Result<(), TaskVimError>)
        requires
            wf(*old(self)),
        ensures
            wf(*final(self)),
            handle_key_rel(*old(self), *final(self), key, REPLAY_DEPTH as nat, r),
    {
        self.handle_key_at(key, REPLAY_DEPTH)
    }

    /// Replay a register directly, as `@` playback does.
    pub fn play_macro(&mut self, reg: char) -> (r: Result<(), TaskVimError>)
        requires
            wf(*old(self)),
        ensures
            wf(*final(self)),
            match macro_lookup(macros_view(old(self).macros@), reg) {
                None => r is Ok && *final(self) == *old(self),
                Some(es) => replay_rel(*old(self), *final(self), es, REPLAY_DEPTH as nat, r),
            },
    {
        match self.macro_events_of(reg) {
            None => Ok(()),
            Some(events) => {
                let r = self.replay_events(&events, REPLAY_DEPTH);
                r
            },
        }
    }

    /// Hand the queued effects to the caller, leaving the queue empty.    /// Hand the queued effects to the caller, leaving the queue empty.
    pub fn take_effects(&mut self) -> (r: Vec<Effect>)
        ensures
            r == old(self).effects,
            *final(self) == (AppState { effects: final(self).effects, ..*old(self) }),
            final(self).effects@.len() == 0,
    {
        let mut out: Vec<Effect> = Vec::new();
        core::mem::swap(&mut out, &mut self.effects);
        out
    }
}

} // verus!
