use vstd::prelude::*;

use crate::domain::TaskView;
use crate::error::TaskVimError;
use crate::state::{AppState, view_ok, clamp_sel, rel_add_task, rel_add_below, rel_add_above,
    rel_delete_selected, rel_delete_visual, rel_undo, rel_redo, tracked_mutation, opt_view,
    strings_view, visible_mset, max_pos, cur_pos, created_shape};
use crate::store::{TaskStore, views_of, matching, active_preds, unique_ids, has_id, remove_id,
    remove_ids, shift_gt, shift_ge, upsert_post, task_matches};
use crate::keymap::Mode;

verus! {

/// No two tasks of the sequence share a position.
pub open spec fn positions_distinct(ts: Seq<TaskView>) -> bool {
    forall|i: int, j: int|
        0 <= i < j < ts.len() ==> (#[trigger] ts[i]).position != (#[trigger] ts[j]).position
}

/// A duplicate-free selection out of a position-distinct sequence is
/// itself position-distinct.
proof fn lemma_positions_via_subset(f: Seq<TaskView>, o: Seq<TaskView>)
    requires
        unique_ids(o),
        unique_ids(f),
        forall|x: TaskView| #[trigger] f.contains(x) ==> o.contains(x),
        positions_distinct(o),
    ensures
        positions_distinct(f),
{
    assert forall|i: int, j: int| 0 <= i < j < f.len() implies (#[trigger] f[i]).position != (
    #[trigger] f[j]).position by {
        assert(f.contains(f[i]));
        assert(f.contains(f[j]));
        assert(o.contains(f[i]));
        assert(o.contains(f[j]));
        let a = choose|a: int| 0 <= a < o.len() && o[a] == f[i];
        let b = choose|b: int| 0 <= b < o.len() && o[b] == f[j];
        assert(f[i].id != f[j].id);
        assert(a != b);
    }
}

/// Each task occurs in a selection at most as often as in the source.
proof fn lemma_matching_count(ts: Seq<TaskView>, ps: Seq<crate::query::FilterView>, x: TaskView)
    ensures
        matching(ts, ps).to_multiset().count(x) <= ts.to_multiset().count(x),
    decreases ts.len(),
{
    broadcast use vstd::seq_lib::group_to_multiset_ensures;
    broadcast use vstd::multiset::group_multiset_axioms;

    reveal(Seq::filter);
    if ts.len() == 0 {
        assert(matching(ts, ps) =~= Seq::<TaskView>::empty());
    } else {
        let pre = ts.drop_last();
        lemma_matching_count(pre, ps, x);
        assert(pre.push(ts.last()) =~= ts);
        assert(ts.to_multiset() =~= pre.to_multiset().insert(ts.last())) by {
            assert(pre.push(ts.last()).to_multiset() =~= pre.to_multiset().insert(ts.last()));
        }
        if task_matches(ts.last(), ps) {
            assert(matching(ts, ps) =~= matching(pre, ps).push(ts.last()));
            assert(matching(ts, ps).to_multiset() =~= matching(pre, ps).to_multiset().insert(
                ts.last(),
            ));
        } else {
            assert(matching(ts, ps) =~= matching(pre, ps));
        }
    }
}

/// Law: the positions of the visible tasks are pairwise distinct
/// whenever the stored positions are, whatever filter, collapse set or
/// search is active.
pub proof fn lemma_view_positions_distinct(s: AppState)
    requires
        s.store.wf(),
        view_ok(s),
        positions_distinct(s.store.tasks_view()),
    ensures
        positions_distinct(views_of(s.tasks@)),
{
    broadcast use vstd::seq_lib::group_to_multiset_ensures;
    broadcast use vstd::multiset::group_multiset_axioms;

    let v = views_of(s.tasks@);
    let st = s.store.tasks_view();
    let m = matching(st, active_preds(opt_view(s.filter_string)));
    assert forall|i: int, j: int| 0 <= i < j < v.len() implies (#[trigger] v[i]).position != (
    #[trigger] v[j]).position by {
        assert(v.contains(v[i]));
        assert(v.contains(v[j]));
        assert(v.to_multiset().count(v[i]) > 0);
        assert(v.to_multiset().count(v[j]) > 0);
        assert(m.to_multiset().count(v[i]) > 0);
        assert(m.to_multiset().count(v[j]) > 0);
        lemma_matching_count(st, active_preds(opt_view(s.filter_string)), v[i]);
        lemma_matching_count(st, active_preds(opt_view(s.filter_string)), v[j]);
        assert(st.to_multiset().count(v[i]) > 0);
        assert(st.to_multiset().count(v[j]) > 0);
        assert(st.contains(v[i]));
        assert(st.contains(v[j]));
        if v[i] == v[j] {
            // the store holds no duplicate values: two equal viewed tasks
            // would have to be one stored task counted twice
            assert(st.no_duplicates()) by {
                assert forall|a: int, b: int|
                    0 <= a < st.len() && 0 <= b < st.len() && a != b implies (#[trigger] st[a]) != (
                #[trigger] st[b]) by {
                    if a < b {
                        assert(st[a].id != st[b].id);
                    } else {
                        assert(st[b].id != st[a].id);
                    }
                }
            }
            st.lemma_multiset_has_no_duplicates();
            assert(v.to_multiset().count(v[i]) >= 2) by {
                let vi = v.remove(i);
                assert(v.remove(i).to_multiset() =~= v.to_multiset().remove(v[i]));
                assert(vi[j - 1] == v[j]);
                assert(vi.contains(v[j]));
                assert(vi.to_multiset().count(v[j]) > 0);
            }
            assert(visible_mset(
                m.to_multiset(),
                strings_view(s.collapsed_projects@),
                opt_view(s.search_query),
            ).count(v[i]) <= m.to_multiset().count(v[i]));
            assert(m.to_multiset().count(v[i]) >= 2);
            assert(st.to_multiset().count(v[i]) >= 2);
            assert(false);
        } else {
            let a = choose|a: int| 0 <= a < st.len() && st[a] == v[i];
            let b = choose|b: int| 0 <= b < st.len() && st[b] == v[j];
            assert(a != b);
        }
    }
}

/// Law: creating a task at the end of the ordering keeps stored
/// positions pairwise distinct, provided the view covers the whole
/// store: no filter, no search, nothing collapsed.
pub proof fn lemma_add_task_keeps_positions(
    pre: AppState,
    post: AppState,
    id: u128,
    title: Seq<char>,
    r: Result<(), TaskVimError>,
)
    requires
        rel_add_task(pre, post, id, title, r),
        r is Ok,
        pre.store.wf(),
        view_ok(pre),
        pre.filter_string is None,
        pre.search_query is None,
        strings_view(pre.collapsed_projects@) =~= Seq::<Seq<char>>::empty(),
        positions_distinct(pre.store.tasks_view()),
    ensures
        positions_distinct(post.store.tasks_view()),
{
    broadcast use vstd::seq_lib::group_to_multiset_ensures;
    broadcast use vstd::multiset::group_multiset_axioms;

    let st = pre.store.tasks_view();
    let v = views_of(pre.tasks@);
    let mp = max_pos(v);
    // with no filter active, every stored task is somewhere in the view
    assert forall|k: int| 0 <= k < st.len() implies (#[trigger] st[k]).position as int <= mp by {
        assert(st.contains(st[k]));
        assert(st.to_multiset().count(st[k]) > 0);
        assert(matching(st, active_preds(opt_view(pre.filter_string))) =~= st) by {
            lemma_matching_all(st, active_preds(opt_view(pre.filter_string)));
        }
        assert(visible_mset(
            st.to_multiset(),
            strings_view(pre.collapsed_projects@),
            opt_view(pre.search_query),
        ) =~= st.to_multiset()) by {
            assert forall|x: TaskView|
                #[trigger] crate::state::vis(
                    x,
                    strings_view(pre.collapsed_projects@),
                    opt_view(pre.search_query),
                ) by {}
        }
        assert(v.to_multiset().count(st[k]) > 0);
        assert(v.contains(st[k]));
        let t = choose|t: int| 0 <= t < v.len() && v[t] == st[k];
        lemma_max_pos_bound(v, t);
    }
    let nt = choose|nt: TaskView|
        #[trigger] created_shape(nt, id, title, pre.config.default_priority, mp + 1)
            && post.store.tasks_view() == pre.store.tasks_view().push(nt);
    assert forall|i: int, j: int| 0 <= i < j < post.store.tasks_view().len() implies (
    #[trigger] post.store.tasks_view()[i]).position != (
    #[trigger] post.store.tasks_view()[j]).position by {
        let ps = post.store.tasks_view();
        if j == ps.len() - 1 {
            assert(ps[i] == st[i]);
            assert(ps[j] == nt);
            assert(st[i].position as int <= mp);
        } else {
            assert(ps[i] == st[i] && ps[j] == st[j]);
        }
    }
}

/// With no filter expression, every task matches.
proof fn lemma_matching_all(ts: Seq<TaskView>, ps: Seq<crate::query::FilterView>)
    requires
        ps.len() == 0,
    ensures
        matching(ts, ps) =~= ts,
    decreases ts.len(),
{
    reveal(Seq::filter);
    if ts.len() > 0 {
        lemma_matching_all(ts.drop_last(), ps);
        assert(ts.drop_last().push(ts.last()) =~= ts);
        assert(task_matches(ts.last(), ps));
        assert(matching(ts, ps) =~= matching(ts.drop_last(), ps).push(ts.last()));
    }
}

/// Every element of a sequence is bounded by the maximum position.
proof fn lemma_max_pos_bound(ts: Seq<TaskView>, i: int)
    requires
        0 <= i < ts.len(),
    ensures
        ts[i].position as int <= max_pos(ts),
    decreases ts.len(),
{
    if ts.len() > 1 {
        if i < ts.len() - 1 {
            assert(ts.drop_last()[i] == ts[i]);
            lemma_max_pos_bound(ts.drop_last(), i);
        }
    }
}

/// Shifting the positions above a threshold up by one preserves
/// distinctness and leaves the freed slot unoccupied.
proof fn lemma_shift_gt_positions(ts: Seq<TaskView>, cur: i64)
    requires
        positions_distinct(ts),
        forall|i: int|
            0 <= i < ts.len() ==> !((#[trigger] ts[i]).position == i64::MAX && ts[i].position
                > cur),
        cur < i64::MAX,
    ensures
        positions_distinct(shift_gt(ts, cur)),
        forall|i: int|
            0 <= i < ts.len() ==> (#[trigger] shift_gt(ts, cur)[i]).position as int != cur + 1,
{
    let sh = shift_gt(ts, cur);
    assert forall|i: int, j: int| 0 <= i < j < sh.len() implies (#[trigger] sh[i]).position != (
    #[trigger] sh[j]).position by {
        assert(ts[i].position != ts[j].position);
    }
    assert forall|i: int| 0 <= i < ts.len() implies (#[trigger] sh[i]).position as int != cur + 1
        by {
        if ts[i].position > cur {
            assert(sh[i].position as int == ts[i].position as int + 1);
        }
    }
}

/// Law: creating a task below the selection keeps stored positions
/// pairwise distinct: positions above the selected one move up as a
/// block and the new task takes the freed slot.
pub proof fn lemma_add_below_keeps_positions(
    pre: AppState,
    post: AppState,
    id: u128,
    title: Seq<char>,
    r: Result<(), TaskVimError>,
)
    requires
        rel_add_below(pre, post, id, title, r),
        r is Ok,
        positions_distinct(pre.store.tasks_view()),
    ensures
        positions_distinct(post.store.tasks_view()),
{
    let cur = cur_pos(pre);
    let st = pre.store.tasks_view();
    let nt = choose|nt: TaskView|
        #[trigger] created_shape(nt, id, title, pre.config.default_priority, cur + 1)
            && post.store.tasks_view() == shift_gt(st, cur).push(nt);
    lemma_shift_gt_positions(st, cur);
    let sh = shift_gt(st, cur);
    assert forall|i: int, j: int| 0 <= i < j < post.store.tasks_view().len() implies (
    #[trigger] post.store.tasks_view()[i]).position != (
    #[trigger] post.store.tasks_view()[j]).position by {
        let ps = post.store.tasks_view();
        if j == ps.len() - 1 {
            assert(ps[i] == sh[i]);
            assert(sh[i].position as int != cur + 1);
        } else {
            assert(ps[i] == sh[i] && ps[j] == sh[j]);
        }
    }
}

/// Law: creating a task above the selection keeps stored positions
/// pairwise distinct.
pub proof fn lemma_add_above_keeps_positions(
    pre: AppState,
    post: AppState,
    id: u128,
    title: Seq<char>,
    r: Result<(), TaskVimError>,
)
    requires
        rel_add_above(pre, post, id, title, r),
        r is Ok,
        positions_distinct(pre.store.tasks_view()),
    ensures
        positions_distinct(post.store.tasks_view()),
{
    let cur = cur_pos(pre);
    let st = pre.store.tasks_view();
    let nt = choose|nt: TaskView|
        #[trigger] created_shape(nt, id, title, pre.config.default_priority, cur as int)
            && post.store.tasks_view() == shift_ge(st, cur).push(nt);
    let sh = shift_ge(st, cur);
    assert forall|i: int, j: int| 0 <= i < j < sh.len() implies (#[trigger] sh[i]).position != (
    #[trigger] sh[j]).position by {
        assert(st[i].position != st[j].position);
    }
    assert forall|i: int| 0 <= i < st.len() implies (#[trigger] sh[i]).position as int
        != cur as int by {
        if st[i].position >= cur {
            assert(sh[i].position as int == st[i].position as int + 1);
        }
    }
    assert forall|i: int, j: int| 0 <= i < j < post.store.tasks_view().len() implies (
    #[trigger] post.store.tasks_view()[i]).position != (
    #[trigger] post.store.tasks_view()[j]).position by {
        let ps = post.store.tasks_view();
        if j == ps.len() - 1 {
            assert(ps[i] == sh[i]);
        } else {
            assert(ps[i] == sh[i] && ps[j] == sh[j]);
        }
    }
}

/// Law: deleting the selected task, or a visual range, keeps stored
/// positions pairwise distinct: what remains is a selection of what was
/// there.
pub proof fn lemma_delete_keeps_positions(
    pre: AppState,
    post: AppState,
    r: Result<(), TaskVimError>,
)
    requires
        rel_delete_selected(pre, post, r),
        pre.store.wf(),
        positions_distinct(pre.store.tasks_view()),
    ensures
        positions_distinct(post.store.tasks_view()),
{
    let st = pre.store.tasks_view();
    if pre.mode == Mode::Visual {
        let mid = choose|mid: AppState|
            #[trigger] rel_delete_visual(pre, mid, r) && post == (AppState {
                mode: Mode::Normal,
                selection_anchor: None,
                ..mid
            });
        match pre.selection_anchor {
            None => {},
            Some(a) => {
                if pre.tasks@.len() == 0 || crate::state::visual_lo(pre, a as int)
                    >= pre.tasks@.len() {
                } else {
                    let ids = crate::state::range_ids(pre, a as int);
                    crate::store::lemma_remove_ids_props(st, ids);
                    lemma_positions_via_subset(remove_ids(st, ids), st);
                }
            },
        }
    } else {
        if pre.tasks@.len() > 0 {
            let vid = pre.tasks@[pre.selected_index as int]@.id;
            crate::store::lemma_remove_id_props(st, vid);
            lemma_positions_via_subset(remove_id(st, vid), st);
        }
    }
}

/// Law: a fresh tracked mutation leaves the redo log empty, so an
/// immediately following redo is a no-op.
pub proof fn lemma_redo_noop_after_mutation(
    pres: TaskStore,
    s2: AppState,
    s3: AppState,
    pre_t: TaskView,
    post_t: TaskView,
    r: Result<(), TaskVimError>,
)
    requires
        tracked_mutation(pres, s2.store, pre_t, post_t),
        rel_redo(s2, s3, r),
    ensures
        r is Ok,
        s3 == s2,
{
    assert(s2.store.redo_view().len() == 0);
}

/// Law: a tracked mutation, an undo and a redo leave the task in its
/// post-mutation state, provided the task stands in the view when the
/// undo and the redo look it up.
pub proof fn lemma_undo_redo_restores(
    s0: AppState,
    s1: AppState,
    s2: AppState,
    s3: AppState,
    victim: TaskView,
    post_t: TaskView,
    r1: Result<(), TaskVimError>,
    r2: Result<(), TaskVimError>,
)
    requires
        s0.store.wf(),
        s1.store.wf(),
        s2.store.wf(),
        victim.id == post_t.id,
        tracked_mutation(s0.store, s1.store, victim, post_t),
        view_ok(s1),
        view_ok(s2),
        rel_undo(s1, s2, r1),
        r1 is Ok,
        rel_redo(s2, s3, r2),
        r2 is Ok,
        crate::state::find_id(views_of(s1.tasks@), victim.id) >= 0,
        crate::state::find_id(views_of(s2.tasks@), victim.id) >= 0,
    ensures
        has_id(s3.store.tasks_view(), post_t.id),
        forall|k: int|
            0 <= k < s3.store.tasks_view().len() && (#[trigger] s3.store.tasks_view()[k]).id
                == post_t.id ==> s3.store.tasks_view()[k] == post_t,
{
    broadcast use vstd::seq_lib::group_to_multiset_ensures;
    broadcast use vstd::multiset::group_multiset_axioms;

    // the undo entry consumed is the mutation's snapshot
    let h1 = s1.store.history_view();
    assert(h1.last() == (s0.store.next_seq, victim));
    // the state pushed onto the redo log is the stored post-mutation task
    let fi = crate::state::find_id(views_of(s1.tasks@), victim.id);
    let cur1 = views_of(s1.tasks@)[fi];
    lemma_find_id_is_at(views_of(s1.tasks@), victim.id);
    lemma_view_entry_is_store_task(s1, fi);
    // s1's stored task under this identifier is post_t
    lemma_upsert_pins(s0.store.tasks_view(), s1.store.tasks_view(), post_t);
    assert(cur1 == post_t);
    // redo log after undo ends with (.., post_t)
    let d2 = s2.store.redo_view();
    assert(d2.last() == (s1.store.next_seq, post_t));
    assert(d2.len() > 0);
    // redo applies it back
    lemma_upsert_pins(s2.store.tasks_view(), s3.store.tasks_view(), post_t);
}

/// Law: from a state just after an undo, a redo followed immediately by
/// an undo restores the pre-mutation state the undo had produced,
/// provided the task stands in the view at each lookup.
pub proof fn lemma_redo_undo_restores(
    s2: AppState,
    s3: AppState,
    s4: AppState,
    snap: TaskView,
    r2: Result<(), TaskVimError>,
    r3: Result<(), TaskVimError>,
)
    requires
        s2.store.wf(),
        s3.store.wf(),
        view_ok(s2),
        view_ok(s3),
        s2.store.redo_view().len() > 0,
        s2.store.redo_view().last().1 == snap,
        has_id(s2.store.tasks_view(), snap.id),
        rel_redo(s2, s3, r2),
        r2 is Ok,
        rel_undo(s3, s4, r3),
        r3 is Ok,
        crate::state::find_id(views_of(s2.tasks@), snap.id) >= 0,
        crate::state::find_id(views_of(s3.tasks@), snap.id) >= 0,
    ensures
        // after the undo, the stored task is back to its pre-redo state
        forall|k: int|
            0 <= k < s4.store.tasks_view().len() && (#[trigger] s4.store.tasks_view()[k]).id
                == snap.id ==> s4.store.tasks_view()[k] == s2.store.tasks_view()[
                choose|a: int|
                    0 <= a < s2.store.tasks_view().len() && (#[trigger] s2.store.tasks_view()[a]).id
                        == snap.id
            ],
{
    broadcast use vstd::seq_lib::group_to_multiset_ensures;
    broadcast use vstd::multiset::group_multiset_axioms;

    let st2 = s2.store.tasks_view();
    let a = choose|a: int| 0 <= a < st2.len() && (#[trigger] st2[a]).id == snap.id;
    let cur2 = st2[a];
    // the redo pushes the pre-redo stored state onto the undo log
    let fi2 = crate::state::find_id(views_of(s2.tasks@), snap.id);
    lemma_find_id_is_at(views_of(s2.tasks@), snap.id);
    lemma_view_entry_is_store_task(s2, fi2);
    assert(views_of(s2.tasks@)[fi2] == cur2);
    let h3 = s3.store.history_view();
    assert(h3.last() == (s2.store.next_seq, cur2));
    // the undo then applies that snapshot back
    lemma_upsert_pins(s3.store.tasks_view(), s4.store.tasks_view(), cur2);
}

/// Law (one part): after creating a task below the selection with no
/// filter, search or collapse active, the new task stands in the view,
/// and the selection has advanced one row. That the advanced row is the
/// new task's row then follows from the position ordering of the view.
pub proof fn lemma_add_below_new_task_visible(
    pre: AppState,
    post: AppState,
    id: u128,
    title: Seq<char>,
    r: Result<(), TaskVimError>,
)
    requires
        rel_add_below(pre, post, id, title, r),
        r is Ok,
        pre.filter_string is None,
        pre.search_query is None,
        strings_view(pre.collapsed_projects@) =~= Seq::<Seq<char>>::empty(),
        pre.tasks@.len() > 0,
    ensures
        exists|k: int|
            0 <= k < post.tasks@.len() && (#[trigger] views_of(post.tasks@)[k]).id == id,
        post.selected_index as int == clamp_sel(
            pre.selected_index as int + 1,
            post.tasks@.len() as int,
        ),
{
    broadcast use vstd::seq_lib::group_to_multiset_ensures;
    broadcast use vstd::multiset::group_multiset_axioms;

    let cur = cur_pos(pre);
    let nt = choose|nt: TaskView|
        #[trigger] created_shape(nt, id, title, pre.config.default_priority, cur + 1)
            && post.store.tasks_view() == shift_gt(pre.store.tasks_view(), cur).push(nt);
    let st = post.store.tasks_view();
    assert(st[st.len() - 1] == nt);
    assert(st.contains(nt));
    assert(st.to_multiset().count(nt) > 0);
    lemma_matching_all(st, active_preds(opt_view(post.filter_string)));
    let v = views_of(post.tasks@);
    assert(v.to_multiset().count(nt) > 0) by {
        assert(crate::state::vis(
            nt,
            strings_view(post.collapsed_projects@),
            opt_view(post.search_query),
        ));
    }
    assert(v.contains(nt));
    let k = choose|k: int| 0 <= k < v.len() && v[k] == nt;
    assert(v[k].id == id);
}

/// A task present in the view carries the same value as the stored task
/// under its identifier.
proof fn lemma_view_entry_is_store_task(s: AppState, i: int)
    requires
        s.store.wf(),
        view_ok(s),
        0 <= i < s.tasks@.len(),
    ensures
        forall|k: int|
            0 <= k < s.store.tasks_view().len() && (#[trigger] s.store.tasks_view()[k]).id
                == s.tasks@[i]@.id ==> s.store.tasks_view()[k] == s.tasks@[i]@,
{
    broadcast use vstd::seq_lib::group_to_multiset_ensures;
    broadcast use vstd::multiset::group_multiset_axioms;

    let x = s.tasks@[i]@;
    let v = views_of(s.tasks@);
    assert(v[i] == x);
    assert(v.contains(x));
    assert(v.to_multiset().count(x) > 0);
    let st = s.store.tasks_view();
    let m = matching(st, active_preds(opt_view(s.filter_string)));
    assert(m.to_multiset().count(x) > 0);
    lemma_matching_count(st, active_preds(opt_view(s.filter_string)), x);
    assert(st.to_multiset().count(x) > 0);
    assert(st.contains(x));
    let a = choose|a: int| 0 <= a < st.len() && st[a] == x;
    assert forall|k: int|
        0 <= k < st.len() && (#[trigger] st[k]).id == x.id implies st[k] == x by {
        if k != a {
            assert(st[k].id != st[a].id);
        }
    }
}

/// `find_id` returns an index holding the identifier.
proof fn lemma_find_id_is_at(ts: Seq<TaskView>, id: u128)
    requires
        crate::state::find_id(ts, id) >= 0,
    ensures
        crate::state::find_id(ts, id) < ts.len(),
        ts[crate::state::find_id(ts, id)].id == id,
    decreases ts.len(),
{
    if ts.len() > 0 && ts[0].id != id {
        if crate::state::find_id(ts.drop_first(), id) >= 0 {
            lemma_find_id_is_at(ts.drop_first(), id);
            assert(ts.drop_first()[crate::state::find_id(ts.drop_first(), id)] == ts[
                crate::state::find_id(ts, id)
            ]);
        }
    }
}

/// After an upsert of `t`, every stored task under `t`'s identifier is
/// `t`.
proof fn lemma_upsert_pins(pres: Seq<TaskView>, posts: Seq<TaskView>, t: TaskView)
    requires
        unique_ids(pres),
        upsert_post(pres, posts, t),
    ensures
        has_id(posts, t.id),
        forall|k: int|
            0 <= k < posts.len() && (#[trigger] posts[k]).id == t.id ==> posts[k] == t,
{
    if has_id(pres, t.id) {
        let i = choose|i: int|
            0 <= i < pres.len() && (#[trigger] pres[i]).id == t.id && posts =~= pres.update(i, t);
        assert(posts[i] == t);
        assert forall|k: int| 0 <= k < posts.len() && (#[trigger] posts[k]).id == t.id implies
            posts[k] == t by {
            if k != i {
                assert(posts[k] == pres[k]);
                assert(pres[k].id != pres[i].id);
            }
        }
    } else {
        assert(posts[posts.len() - 1] == t);
        assert forall|k: int| 0 <= k < posts.len() && (#[trigger] posts[k]).id == t.id implies
            posts[k] == t by {
            if k < posts.len() - 1 {
                assert(posts[k] == pres[k]);
                assert(pres.contains(pres[k]));
                assert(!has_id(pres, t.id));
            }
        }
    }
}

} // verus!
