use vstd::prelude::*;
use vstd::pervasive::VecAdditionalExecFns;

use crate::domain::{Task, TaskView, TaskStatus, priority_valid, now_millis};
use crate::error::TaskVimError;
use crate::query::{Filter, FilterView, spec_parse, column_of, Operator};
use crate::text::{lex_lt, contains_seq, str_is_int, str_int_val, str_eq, str_lt, str_contains,
    parse_i64};

verus! {

/// The views of a sequence of tasks.
pub open spec fn views_of(s: Seq<Task>) -> Seq<TaskView> {
    s.map_values(|t: Task| t@)
}

/// How a string field compares under an operator: equality and inequality
/// are exact, the order comparisons are lexicographic by code point, and
/// `contains` is substring containment.
pub open spec fn str_cmp_op(a: Seq<char>, op: Operator, b: Seq<char>) -> bool {
    match op {
        Operator::Eq => a == b,
        Operator::Neq => a != b,
        Operator::Gt => lex_lt(b, a),
        Operator::Lt => lex_lt(a, b),
        Operator::Gte => lex_lt(b, a) || a == b,
        Operator::Lte => lex_lt(a, b) || a == b,
        Operator::Contains => contains_seq(a, b),
    }
}

/// How a numeric field compares under an operator. An absent field value
/// never matches, as a SQL NULL would not; a filter value that is not an
/// integer literal never matches; `contains` does not apply to numbers.
pub open spec fn num_cmp_op(x: Option<int>, op: Operator, v: Seq<char>) -> bool {
    match x {
        None => false,
        Some(n) => {
            if !str_is_int(v) {
                false
            } else {
                let val = str_int_val(v);
                match op {
                    Operator::Eq => n == val,
                    Operator::Neq => n != val,
                    Operator::Gt => n > val,
                    Operator::Lt => n < val,
                    Operator::Gte => n >= val,
                    Operator::Lte => n <= val,
                    Operator::Contains => false,
                }
            }
        },
    }
}

/// Whether a task satisfies one predicate. `status` compares the status
/// name, `priority`, `due` and `created` compare numerically, `project`
/// compares the project name and never matches a task without one.
pub open spec fn pred_matches(t: TaskView, p: FilterView) -> bool {
    if p.field == "status"@ {
        str_cmp_op(t.status.name_view(), p.operator, p.value)
    } else if p.field == "priority"@ {
        num_cmp_op(Some(t.priority as int), p.operator, p.value)
    } else if p.field == "project"@ {
        match t.project {
            Some(pr) => str_cmp_op(pr@, p.operator, p.value),
            None => false,
        }
    } else if p.field == "due"@ {
        num_cmp_op(
            match t.due_date {
                Some(d) => Some(d as int),
                None => None,
            },
            p.operator,
            p.value,
        )
    } else if p.field == "created"@ {
        num_cmp_op(Some(t.created_at as int), p.operator, p.value)
    } else {
        false
    }
}

/// Whether a task satisfies every predicate of a filter.
pub open spec fn task_matches(t: TaskView, ps: Seq<FilterView>) -> bool {
    forall|i: int| 0 <= i < ps.len() ==> pred_matches(t, #[trigger] ps[i])
}

/// The predicates of an optional filter expression.
pub open spec fn active_preds(fs: Option<Seq<char>>) -> Seq<FilterView> {
    match fs {
        Some(s) => spec_parse(s),
        None => Seq::empty(),
    }
}

/// Every predicate of the filter names a usable column.
pub open spec fn preds_valid(ps: Seq<FilterView>) -> bool {
    forall|i: int| 0 <= i < ps.len() ==> column_of(#[trigger] ps[i].field) is Some
}

/// Evaluate one string comparison.
fn str_cmp_exec(a: &str, op: Operator, b: &str) -> (r: bool)
    ensures
        r == str_cmp_op(a@, op, b@),
{
    match op {
        Operator::Eq => str_eq(a, b),
        Operator::Neq => !str_eq(a, b),
        Operator::Gt => str_lt(b, a),
        Operator::Lt => str_lt(a, b),
        Operator::Gte => str_lt(b, a) || str_eq(a, b),
        Operator::Lte => str_lt(a, b) || str_eq(a, b),
        Operator::Contains => str_contains(a, b),
    }
}

/// Evaluate one numeric comparison.
fn num_cmp_exec(x: Option<i64>, op: Operator, v: &str) -> (r: bool)
    ensures
        r == num_cmp_op(
            match x {
                Some(n) => Some(n as int),
                None => None,
            },
            op,
            v@,
        ),
{
    match x {
        None => false,
        Some(n) => match parse_i64(v) {
            None => {
                // either not a literal or out of the i64 range; an i64
                // field can satisfy an order comparison against an
                // out-of-range literal
                match op {
                    Operator::Gt => {
                        if str_is_int_exec(v) {
                            // value below i64::MIN matches every n
                            v_is_small(v)
                        } else {
                            false
                        }
                    },
                    Operator::Lt => {
                        if str_is_int_exec(v) {
                            v_is_large(v)
                        } else {
                            false
                        }
                    },
                    Operator::Gte => {
                        if str_is_int_exec(v) {
                            v_is_small(v)
                        } else {
                            false
                        }
                    },
                    Operator::Lte => {
                        if str_is_int_exec(v) {
                            v_is_large(v)
                        } else {
                            false
                        }
                    },
                    Operator::Neq => str_is_int_exec(v),
                    _ => false,
                }
            },
            Some(val) => match op {
                Operator::Eq => n == val,
                Operator::Neq => n != val,
                Operator::Gt => n > val,
                Operator::Lt => n < val,
                Operator::Gte => n >= val,
                Operator::Lte => n <= val,
                Operator::Contains => false,
            },
        },
    }
}

/// Whether the text is an integer literal, whatever its magnitude.
fn str_is_int_exec(s: &str) -> (r: bool)
    ensures
        r == str_is_int(s@),
{
    let len = s.unicode_len();
    if len == 0 {
        return false;
    }
    let neg = s.get_char(0) == '-';
    let start: usize = if neg {
        1
    } else {
        0
    };
    if start >= len {
        return false;
    }
    let ghost digits: Seq<char> = if neg {
        s@.drop_first()
    } else {
        s@
    };
    let mut i: usize = start;
    while i < len
        invariant
            start <= i <= len,
            len == s@.len(),
            start == (if neg { 1int } else { 0int }),
            neg ==> s@[0] == '-',
            !neg ==> s@[0] != '-',
            start < len,
            digits == (if neg { s@.drop_first() } else { s@ }),
            forall|k: int| 0 <= k < i - start ==> crate::text::is_digit(#[trigger] digits[k]),
        decreases len - i,
    {
        let c = s.get_char(i);
        if c < '0' || c > '9' {
            assert(!crate::text::is_digit(digits[i - start]));
            return false;
        }
        i += 1;
    }
    true
}

/// An integer literal too large for `i64` is positive and above every `i64`.
fn v_is_large(v: &str) -> (r: bool)
    requires
        str_is_int(v@),
        !(-0x8000_0000_0000_0000 <= str_int_val(v@) < 0x8000_0000_0000_0000),
    ensures
        r == (str_int_val(v@) >= 0x8000_0000_0000_0000),
{
    proof {
        if v@[0] != '-' {
            crate::text::lemma_digits_val_nonneg(v@);
        } else {
            crate::text::lemma_digits_val_nonneg(v@.drop_first());
        }
    }
    v.get_char(0) != '-'
}

/// An integer literal too small for `i64` is negative and below every `i64`.
fn v_is_small(v: &str) -> (r: bool)
    requires
        str_is_int(v@),
        !(-0x8000_0000_0000_0000 <= str_int_val(v@) < 0x8000_0000_0000_0000),
    ensures
        r == (str_int_val(v@) < -0x8000_0000_0000_0000),
{
    proof {
        if v@[0] != '-' {
            crate::text::lemma_digits_val_nonneg(v@);
        } else {
            crate::text::lemma_digits_val_nonneg(v@.drop_first());
        }
    }
    v.get_char(0) == '-'
}

/// Evaluate one predicate against a task.
pub fn eval_pred(t: &Task, p: &Filter) -> (r: bool)
    ensures
        r == pred_matches(t@, p@),
{
    let f = p.field.as_str();
    if str_eq(f, "status") {
        str_cmp_exec(t.status.name(), p.operator, p.value.as_str())
    } else if str_eq(f, "priority") {
        num_cmp_exec(Some(t.priority as i64), p.operator, p.value.as_str())
    } else if str_eq(f, "project") {
        match &t.project {
            Some(pr) => str_cmp_exec(pr.as_str(), p.operator, p.value.as_str()),
            None => false,
        }
    } else if str_eq(f, "due") {
        num_cmp_exec(t.due_date, p.operator, p.value.as_str())
    } else if str_eq(f, "created") {
        num_cmp_exec(Some(t.created_at), p.operator, p.value.as_str())
    } else {
        false
    }
}

/// Whether a task satisfies every predicate of a parsed filter.
pub fn eval_preds(t: &Task, ps: &Vec<Filter>) -> (r: bool)
    ensures
        r == task_matches(t@, crate::query::filters_view(ps@)),
{
    let mut i: usize = 0;
    while i < ps.len()
        invariant
            i <= ps.len(),
            forall|k: int| 0 <= k < i ==> pred_matches(t@, #[trigger] crate::query::filters_view(
                ps@,
            )[k]),
        decreases ps.len() - i,
    {
        if !eval_pred(t, &ps[i]) {
            assert(crate::query::filters_view(ps@)[i as int] == ps@[i as int]@);
            return false;
        }
        i += 1;
    }
    true
}

/// No two tasks of the sequence share an identifier.
pub open spec fn unique_ids(ts: Seq<TaskView>) -> bool {
    forall|i: int, j: int|
        0 <= i < j < ts.len() ==> (#[trigger] ts[i]).id != (#[trigger] ts[j]).id
}

/// Some task of the sequence has the identifier.
pub open spec fn has_id(ts: Seq<TaskView>, id: u128) -> bool {
    exists|i: int| 0 <= i < ts.len() && (#[trigger] ts[i]).id == id
}

/// All priorities of the sequence are valid.
pub open spec fn valid_priorities(ts: Seq<TaskView>) -> bool {
    forall|i: int| 0 <= i < ts.len() ==> priority_valid((#[trigger] ts[i]).priority)
}

/// The sequence without the tasks carrying the identifier.
pub open spec fn remove_id(ts: Seq<TaskView>, id: u128) -> Seq<TaskView> {
    ts.filter(|tv: TaskView| tv.id != id)
}

/// The log without the entries carrying the sequence number.
pub open spec fn log_remove(l: Seq<(u64, TaskView)>, id: u64) -> Seq<(u64, TaskView)> {
    l.filter(|e: (u64, TaskView)| e.0 != id)
}

/// The sequence without the tasks whose identifier is listed.
pub open spec fn remove_ids(ts: Seq<TaskView>, ids: Seq<u128>) -> Seq<TaskView> {
    ts.filter(|tv: TaskView| !ids.contains(tv.id))
}

/// The tasks of the sequence satisfying every predicate, in order.
pub open spec fn matching(ts: Seq<TaskView>, ps: Seq<FilterView>) -> Seq<TaskView> {
    ts.filter(|tv: TaskView| task_matches(tv, ps))
}

proof fn lemma_remove_id_push(ts: Seq<TaskView>, x: TaskView, id: u128)
    ensures
        remove_id(ts.push(x), id) == (if x.id != id {
            remove_id(ts, id).push(x)
        } else {
            remove_id(ts, id)
        }),
{
    broadcast use Seq::lemma_filter_push;

}

proof fn lemma_log_remove_push(l: Seq<(u64, TaskView)>, x: (u64, TaskView), id: u64)
    ensures
        log_remove(l.push(x), id) == (if x.0 != id {
            log_remove(l, id).push(x)
        } else {
            log_remove(l, id)
        }),
{
    broadcast use Seq::lemma_filter_push;

}

proof fn lemma_matching_push(ts: Seq<TaskView>, x: TaskView, ps: Seq<FilterView>)
    ensures
        matching(ts.push(x), ps) == (if task_matches(x, ps) {
            matching(ts, ps).push(x)
        } else {
            matching(ts, ps)
        }),
{
    broadcast use Seq::lemma_filter_push;

}

proof fn lemma_remove_ids_push(ts: Seq<TaskView>, x: TaskView, ids: Seq<u128>)
    ensures
        remove_ids(ts.push(x), ids) == (if !ids.contains(x.id) {
            remove_ids(ts, ids).push(x)
        } else {
            remove_ids(ts, ids)
        }),
{
    broadcast use Seq::lemma_filter_push;

}

/// Removing listed identifiers keeps identifiers unique, priorities
/// valid, and yields a subsequence.
pub(crate) proof fn lemma_remove_ids_props(ts: Seq<TaskView>, ids: Seq<u128>)
    requires
        unique_ids(ts),
        valid_priorities(ts),
    ensures
        unique_ids(remove_ids(ts, ids)),
        valid_priorities(remove_ids(ts, ids)),
        forall|x: TaskView| #[trigger] remove_ids(ts, ids).contains(x) ==> ts.contains(x),
    decreases ts.len(),
{
    if ts.len() > 0 {
        let pre = ts.drop_last();
        assert forall|i: int| 0 <= i < pre.len() implies pre[i] == ts[i] by {}
        lemma_remove_ids_props(pre, ids);
        lemma_remove_ids_push(pre, ts.last(), ids);
        assert(pre.push(ts.last()) =~= ts);
        let f = remove_ids(ts, ids);
        let fp = remove_ids(pre, ids);
        let keep = !ids.contains(ts.last().id);
        assert forall|x: TaskView| #[trigger] f.contains(x) implies ts.contains(x) by {
            let i = choose|i: int| 0 <= i < f.len() && f[i] == x;
            if keep && i == f.len() - 1 {
                assert(ts.contains(ts.last())) by {
                    assert(ts[ts.len() - 1] == ts.last());
                }
            } else {
                assert(fp.contains(x)) by {
                    assert(fp[i] == x);
                }
                assert(pre.contains(x));
                let k = choose|k: int| 0 <= k < pre.len() && pre[k] == x;
                assert(ts[k] == x);
            }
        }
        assert forall|i: int, j: int| 0 <= i < j < f.len() implies (#[trigger] f[i]).id != (
        #[trigger] f[j]).id by {
            if keep && j == f.len() - 1 {
                assert(f[i] == fp[i]);
                assert(fp.contains(fp[i]));
                assert(pre.contains(fp[i]));
                let k = choose|k: int| 0 <= k < pre.len() && pre[k] == fp[i];
                assert(ts[k] == fp[i] && ts[ts.len() - 1] == ts.last());
            } else {
                assert(f[i] == fp[i] && f[j] == fp[j]);
            }
        }
        assert forall|i: int| 0 <= i < f.len() implies priority_valid((#[trigger] f[i]).priority)
            by {
            if keep && i == f.len() - 1 {
                assert(f[i] == ts.last());
                assert(priority_valid(ts[ts.len() - 1].priority));
            } else {
                assert(f[i] == fp[i]);
            }
        }
    }
}

/// Removing an identifier keeps identifiers unique, priorities valid,
/// and yields a subsequence.
pub(crate) proof fn lemma_remove_id_props(ts: Seq<TaskView>, id: u128)
    requires
        unique_ids(ts),
        valid_priorities(ts),
    ensures
        unique_ids(remove_id(ts, id)),
        valid_priorities(remove_id(ts, id)),
        forall|x: TaskView| #[trigger] remove_id(ts, id).contains(x) ==> ts.contains(x),
    decreases ts.len(),
{
    if ts.len() > 0 {
        let pre = ts.drop_last();
        assert forall|i: int| 0 <= i < pre.len() implies pre[i] == ts[i] by {}
        lemma_remove_id_props(pre, id);
        lemma_remove_id_push(pre, ts.last(), id);
        assert(pre.push(ts.last()) =~= ts);
        let f = remove_id(ts, id);
        let fp = remove_id(pre, id);
        assert forall|x: TaskView| #[trigger] f.contains(x) implies ts.contains(x) by {
            let i = choose|i: int| 0 <= i < f.len() && f[i] == x;
            if ts.last().id != id && i == f.len() - 1 {
                assert(ts.contains(ts.last())) by {
                    assert(ts[ts.len() - 1] == ts.last());
                }
            } else {
                assert(fp.contains(x)) by {
                    assert(fp[i] == x);
                }
                assert(pre.contains(x));
                let k = choose|k: int| 0 <= k < pre.len() && pre[k] == x;
                assert(ts[k] == x);
            }
        }
        assert forall|i: int, j: int| 0 <= i < j < f.len() implies (#[trigger] f[i]).id != (
        #[trigger] f[j]).id by {
            if ts.last().id != id && j == f.len() - 1 {
                assert(f[i] == fp[i]);
                assert(fp.contains(fp[i]));
                assert(pre.contains(fp[i]));
                let k = choose|k: int| 0 <= k < pre.len() && pre[k] == fp[i];
                assert(ts[k] == fp[i] && ts[ts.len() - 1] == ts.last());
            } else {
                assert(f[i] == fp[i] && f[j] == fp[j]);
            }
        }
        assert forall|i: int| 0 <= i < f.len() implies priority_valid((#[trigger] f[i]).priority)
            by {
            if ts.last().id != id && i == f.len() - 1 {
                assert(f[i] == ts.last());
                assert(priority_valid(ts[ts.len() - 1].priority));
            } else {
                assert(f[i] == fp[i]);
            }
        }
    }
}

/// Removing a sequence number keeps a log well formed.
proof fn lemma_log_remove_props(l: Seq<(u64, TaskView)>, bound: u64, id: u64)
    requires
        log_ok(l, bound),
    ensures
        log_ok(log_remove(l, id), bound),
        forall|x: (u64, TaskView)| #[trigger] log_remove(l, id).contains(x) ==> l.contains(x),
    decreases l.len(),
{
    if l.len() > 0 {
        let pre = l.drop_last();
        assert forall|i: int| 0 <= i < pre.len() implies pre[i] == l[i] by {}
        lemma_log_remove_props(pre, bound, id);
        lemma_log_remove_push(pre, l.last(), id);
        assert(pre.push(l.last()) =~= l);
        let f = log_remove(l, id);
        let fp = log_remove(pre, id);
        assert forall|x: (u64, TaskView)| #[trigger] f.contains(x) implies l.contains(x) by {
            let i = choose|i: int| 0 <= i < f.len() && f[i] == x;
            if l.last().0 != id && i == f.len() - 1 {
                assert(l.contains(l.last())) by {
                    assert(l[l.len() - 1] == l.last());
                }
            } else {
                assert(fp.contains(x)) by {
                    assert(fp[i] == x);
                }
                assert(pre.contains(x));
                let k = choose|k: int| 0 <= k < pre.len() && pre[k] == x;
                assert(l[k] == x);
            }
        }
        assert forall|i: int, j: int| 0 <= i < j < f.len() implies (#[trigger] f[i]).0 < (
        #[trigger] f[j]).0 by {
            if l.last().0 != id && j == f.len() - 1 {
                assert(f[i] == fp[i]);
                assert(fp.contains(fp[i]));
                assert(pre.contains(fp[i]));
                let k = choose|k: int| 0 <= k < pre.len() && pre[k] == fp[i];
                assert(l[k] == fp[i] && l[l.len() - 1] == l.last());
            } else {
                assert(f[i] == fp[i] && f[j] == fp[j]);
            }
        }
        assert forall|i: int| 0 <= i < f.len() implies (#[trigger] f[i]).0 < bound
            && priority_valid(f[i].1.priority) by {
            if l.last().0 != id && i == f.len() - 1 {
                assert(f[i] == l.last());
                assert(l[l.len() - 1].0 < bound && priority_valid(l[l.len() - 1].1.priority));
            } else {
                assert(f[i] == fp[i]);
            }
        }
    }
}

/// A selection keeps identifiers unique and priorities valid.
pub(crate) proof fn lemma_matching_props(ts: Seq<TaskView>, ps: Seq<FilterView>)
    requires
        unique_ids(ts),
        valid_priorities(ts),
    ensures
        unique_ids(matching(ts, ps)),
        valid_priorities(matching(ts, ps)),
        forall|x: TaskView| #[trigger] matching(ts, ps).contains(x) ==> ts.contains(x),
    decreases ts.len(),
{
    if ts.len() > 0 {
        let pre = ts.drop_last();
        assert forall|i: int| 0 <= i < pre.len() implies pre[i] == ts[i] by {}
        lemma_matching_props(pre, ps);
        lemma_matching_push(pre, ts.last(), ps);
        assert(pre.push(ts.last()) =~= ts);
        let f = matching(ts, ps);
        let fp = matching(pre, ps);
        let keep = task_matches(ts.last(), ps);
        assert forall|x: TaskView| #[trigger] f.contains(x) implies ts.contains(x) by {
            let i = choose|i: int| 0 <= i < f.len() && f[i] == x;
            if keep && i == f.len() - 1 {
                assert(ts.contains(ts.last())) by {
                    assert(ts[ts.len() - 1] == ts.last());
                }
            } else {
                assert(fp.contains(x)) by {
                    assert(fp[i] == x);
                }
                assert(pre.contains(x));
                let k = choose|k: int| 0 <= k < pre.len() && pre[k] == x;
                assert(ts[k] == x);
            }
        }
        assert forall|i: int, j: int| 0 <= i < j < f.len() implies (#[trigger] f[i]).id != (
        #[trigger] f[j]).id by {
            if keep && j == f.len() - 1 {
                assert(f[i] == fp[i]);
                assert(fp.contains(fp[i]));
                assert(pre.contains(fp[i]));
                let k = choose|k: int| 0 <= k < pre.len() && pre[k] == fp[i];
                assert(ts[k] == fp[i] && ts[ts.len() - 1] == ts.last());
            } else {
                assert(f[i] == fp[i] && f[j] == fp[j]);
            }
        }
        assert forall|i: int| 0 <= i < f.len() implies priority_valid((#[trigger] f[i]).priority)
            by {
            if keep && i == f.len() - 1 {
                assert(f[i] == ts.last());
                assert(priority_valid(ts[ts.len() - 1].priority));
            } else {
                assert(f[i] == fp[i]);
            }
        }
    }
}

/// The sequence with every position strictly above `cur` moved up one.
pub open spec fn shift_gt(ts: Seq<TaskView>, cur: i64) -> Seq<TaskView> {
    ts.map_values(
        |tv: TaskView|
            if tv.position > cur {
                TaskView { position: (tv.position + 1) as i64, ..tv }
            } else {
                tv
            },
    )
}

/// The sequence with every position at or above `cur` moved up one.
pub open spec fn shift_ge(ts: Seq<TaskView>, cur: i64) -> Seq<TaskView> {
    ts.map_values(
        |tv: TaskView|
            if tv.position >= cur {
                TaskView { position: (tv.position + 1) as i64, ..tv }
            } else {
                tv
            },
    )
}

/// Membership of an identifier in an identifier list.
pub fn contains_u128(v: &Vec<u128>, x: u128) -> (r: bool)
    ensures
        r == v@.contains(x),
{
    let mut i: usize = 0;
    while i < v.len()
        invariant
            i <= v.len(),
            forall|k: int| 0 <= k < i ==> v@[k] != x,
        decreases v.len() - i,
    {
        if v[i] == x {
            return true;
        }
        i += 1;
    }
    false
}

/// One entry of the undo or redo log: a sequence number, the snapshot of a
/// task's prior state, and the instant it was recorded.
pub struct HistoryEntry {
    pub id: u64,
    pub snapshot: Task,
    pub timestamp: i64,
}

/// The mathematical value of a log: its sequence numbers and snapshots.
pub open spec fn log_view(s: Seq<HistoryEntry>) -> Seq<(u64, TaskView)> {
    s.map_values(|e: HistoryEntry| (e.id, e.snapshot@))
}

/// A log is well formed below a bound: sequence numbers strictly increase
/// and stay below the bound, and every snapshot has a valid priority.
pub open spec fn log_ok(l: Seq<(u64, TaskView)>, bound: u64) -> bool {
    &&& forall|i: int, j: int|
        0 <= i < j < l.len() ==> (#[trigger] l[i]).0 < (#[trigger] l[j]).0
    &&& forall|i: int| 0 <= i < l.len() ==> (#[trigger] l[i]).0 < bound
    &&& forall|i: int| 0 <= i < l.len() ==> priority_valid((#[trigger] l[i]).1.priority)
}

/// The view of an optional string.
pub open spec fn opt_str_view(o: Option<&str>) -> Option<Seq<char>> {
    match o {
        Some(s) => Some(s@),
        None => None,
    }
}

/// The sort orders the store and the dispatcher use. `StoreOrder` is the
/// store's own row order: position ascending, then creation time
/// descending.
#[derive(Debug, Clone, Copy, PartialEq, Eq, Structural)]
pub enum SortKey {
    StoreOrder,
    Position,
    PriorityDesc,
    CreatedAt,
}

/// Primary sort key of a task.
pub open spec fn sort_k1(k: SortKey, t: TaskView) -> int {
    match k {
        SortKey::StoreOrder => t.position as int,
        SortKey::Position => t.position as int,
        SortKey::PriorityDesc => -(t.priority as int),
        SortKey::CreatedAt => t.created_at as int,
    }
}

/// Secondary sort key of a task.
pub open spec fn sort_k2(k: SortKey, t: TaskView) -> int {
    match k {
        SortKey::StoreOrder => -(t.created_at as int),
        SortKey::Position => 0,
        SortKey::PriorityDesc => 0,
        SortKey::CreatedAt => 0,
    }
}

/// The non-strict order a sort key induces.
pub open spec fn key_le(k: SortKey, a: TaskView, b: TaskView) -> bool {
    sort_k1(k, a) < sort_k1(k, b) || (sort_k1(k, a) == sort_k1(k, b) && sort_k2(k, a) <= sort_k2(
        k,
        b,
    ))
}

/// A sequence ordered by the key.
pub open spec fn sorted_tasks(k: SortKey, s: Seq<TaskView>) -> bool {
    forall|i: int, j: int| 0 <= i < j < s.len() ==> key_le(k, #[trigger] s[i], #[trigger] s[j])
}

fn key_le_exec(k: SortKey, a: &Task, b: &Task) -> (r: bool)
    ensures
        r == key_le(k, a@, b@),
{
    match k {
        SortKey::StoreOrder => a.position < b.position || (a.position == b.position
            && a.created_at >= b.created_at),
        SortKey::Position => a.position <= b.position,
        SortKey::PriorityDesc => a.priority >= b.priority,
        SortKey::CreatedAt => a.created_at <= b.created_at,
    }
}

/// Sort tasks by the key: the result is ordered and holds exactly the
/// same tasks.
pub fn sort_tasks(v: Vec<Task>, k: SortKey) -> (r: Vec<Task>)
    ensures
        sorted_tasks(k, views_of(r@)),
        views_of(r@).to_multiset() == views_of(v@).to_multiset(),
{
    broadcast use vstd::seq_lib::group_to_multiset_ensures;

    let mut rest = v;
    let mut out: Vec<Task> = Vec::new();
    let ghost all = views_of(rest@);
    proof {
        assert(views_of(out@) =~= Seq::<TaskView>::empty());
        assert(views_of(out@).to_multiset().add(views_of(rest@).to_multiset()) =~= all.to_multiset());
    }
    while rest.len() > 0
        invariant
            sorted_tasks(k, views_of(out@)),
            forall|i: int, j: int|
                0 <= i < out@.len() && 0 <= j < rest@.len() ==> key_le(
                    k,
                    #[trigger] out@[i]@,
                    #[trigger] rest@[j]@,
                ),
            views_of(out@).to_multiset().add(views_of(rest@).to_multiset()) == all.to_multiset(),
        decreases rest.len(),
    {
        let mut mi: usize = 0;
        let mut j: usize = 1;
        while j < rest.len()
            invariant
                mi < rest@.len(),
                1 <= j <= rest@.len(),
                forall|t: int| 0 <= t < j ==> key_le(k, rest@[mi as int]@, #[trigger] rest@[t]@),
            decreases rest@.len() - j,
        {
            if !key_le_exec(k, &rest[mi], &rest[j]) {
                assert forall|t: int| 0 <= t < j + 1 implies key_le(
                    k,
                    rest@[j as int]@,
                    #[trigger] rest@[t]@,
                ) by {
                    assert(key_le(k, rest@[mi as int]@, rest@[t]@) || t == j);
                }
                mi = j;
            }
            j += 1;
        }
        let ghost rest_pre = rest@;
        let ghost out_pre = out@;
        let m = rest.remove(mi);
        out.push(m);
        proof {
            broadcast use vstd::seq_lib::group_to_multiset_ensures;

            assert(m@ == rest_pre[mi as int]@);
            assert(views_of(out@) =~= views_of(out_pre).push(m@));
            assert(views_of(rest@) =~= views_of(rest_pre).remove(mi as int));
            assert(views_of(rest_pre)[mi as int] == m@);
            assert(views_of(rest_pre).remove(mi as int).to_multiset() =~= views_of(
                rest_pre,
            ).to_multiset().remove(m@));
            assert(views_of(out_pre).push(m@).to_multiset() =~= views_of(
                out_pre,
            ).to_multiset().insert(m@));
            assert(views_of(rest@).to_multiset() =~= views_of(rest_pre).to_multiset().remove(m@));
            assert(views_of(out@).to_multiset() =~= views_of(out_pre).to_multiset().insert(m@));
            assert(views_of(rest_pre).to_multiset().count(m@) > 0) by {
                assert(views_of(rest_pre).contains(m@)) by {
                    assert(views_of(rest_pre)[mi as int] == m@);
                }
            }
            assert(views_of(out@).to_multiset().add(views_of(rest@).to_multiset())
                =~= views_of(out_pre).to_multiset().add(views_of(rest_pre).to_multiset()));
            // the chosen minimum keeps both order invariants
            assert forall|i: int, j2: int|
                0 <= i < out@.len() && 0 <= j2 < rest@.len() implies key_le(
                    k,
                    #[trigger] out@[i]@,
                    #[trigger] rest@[j2]@,
                ) by {
                let prev = if j2 < mi {
                    j2
                } else {
                    j2 + 1
                };
                assert(rest@[j2] == rest_pre[prev]);
                if i < out@.len() - 1 {
                    assert(out@[i] == out_pre[i]);
                    assert(key_le(k, out_pre[i]@, rest_pre[prev]@));
                } else {
                    assert(out@[i] == m);
                    assert(key_le(k, rest_pre[mi as int]@, rest_pre[prev]@));
                }
            }
            assert forall|i: int, j2: int| 0 <= i < j2 < out@.len() implies key_le(
                k,
                #[trigger] out@[i]@,
                #[trigger] out@[j2]@,
            ) by {
                if j2 == out@.len() - 1 {
                    assert(out@[i] == out_pre[i]);
                    assert(key_le(k, out_pre[i]@, rest_pre[mi as int]@));
                } else {
                    assert(out@[i] == out_pre[i] && out@[j2] == out_pre[j2]);
                    assert(views_of(out_pre)[i] == out_pre[i]@ && views_of(out_pre)[j2]
                        == out_pre[j2]@);
                    assert(key_le(k, views_of(out_pre)[i], views_of(out_pre)[j2]));
                }
            }
            assert(sorted_tasks(k, views_of(out@))) by {
                assert forall|i: int, j2: int| 0 <= i < j2 < views_of(out@).len() implies key_le(
                    k,
                    #[trigger] views_of(out@)[i],
                    #[trigger] views_of(out@)[j2],
                ) by {
                    assert(key_le(k, out@[i]@, out@[j2]@));
                }
            }
        }
    }
    proof {
        assert(views_of(rest@) =~= Seq::<TaskView>::empty());
        assert(views_of(out@).to_multiset().add(views_of(rest@).to_multiset()) =~= views_of(
            out@,
        ).to_multiset());
    }
    out
}

/// The in-memory task store: the owned set of tasks, the undo and redo
/// logs, and the next log sequence number. This is the store contract the
/// dispatcher relies on; a caller that persists tasks mirrors these
/// operations onto durable storage.
pub struct TaskStore {
    pub tasks: Vec<Task>,
    pub history: Vec<HistoryEntry>,
    pub redo: Vec<HistoryEntry>,
    pub next_seq: u64,
}

/// How the task set changes on an upsert: the task with the same
/// identifier is replaced, or the new task is appended.
pub open spec fn upsert_post(pre: Seq<TaskView>, post: Seq<TaskView>, t: TaskView) -> bool {
    if has_id(pre, t.id) {
        exists|i: int|
            0 <= i < pre.len() && (#[trigger] pre[i]).id == t.id && post =~= pre.update(i, t)
    } else {
        post =~= pre.push(t)
    }
}

impl TaskStore {
    pub open spec fn tasks_view(self) -> Seq<TaskView> {
        views_of(self.tasks@)
    }

    pub open spec fn history_view(self) -> Seq<(u64, TaskView)> {
        log_view(self.history@)
    }

    pub open spec fn redo_view(self) -> Seq<(u64, TaskView)> {
        log_view(self.redo@)
    }

    /// Well-formedness: task identifiers are unique, priorities valid,
    /// and both logs are well formed below the next sequence number.
    pub open spec fn wf(self) -> bool {
        &&& unique_ids(self.tasks_view())
        &&& valid_priorities(self.tasks_view())
        &&& log_ok(self.history_view(), self.next_seq)
        &&& log_ok(self.redo_view(), self.next_seq)
    }

    /// An empty store.
    pub fn new() -> (s: TaskStore)
        ensures
            s.wf(),
            s.tasks_view() =~= Seq::<TaskView>::empty(),
            s.history_view() =~= Seq::<(u64, TaskView)>::empty(),
            s.redo_view() =~= Seq::<(u64, TaskView)>::empty(),
            s.next_seq == 0,
    {
        TaskStore { tasks: Vec::new(), history: Vec::new(), redo: Vec::new(), next_seq: 0 }
    }

    /// Whether a task with the identifier is stored.
    pub fn contains_id(&self, id: u128) -> (r: bool)
        ensures
            r == has_id(self.tasks_view(), id),
    {
        let mut i: usize = 0;
        while i < self.tasks.len()
            invariant
                i <= self.tasks.len(),
                forall|k: int| 0 <= k < i ==> (#[trigger] self.tasks_view()[k]).id != id,
            decreases self.tasks.len() - i,
        {
            if self.tasks[i].id == id {
                assert(self.tasks_view()[i as int].id == id);
                return true;
            }
            i += 1;
        }
        false
    }

    /// Upsert: replace the stored task with the same identifier, or
    /// append the task. Logs and sequence number are untouched.
    pub fn save_task(&mut self, t: &Task)
        requires
            old(self).wf(),
            priority_valid(t@.priority),
        ensures
            final(self).wf(),
            upsert_post(old(self).tasks_view(), final(self).tasks_view(), t@),
            final(self).history@ == old(self).history@,
            final(self).redo@ == old(self).redo@,
            final(self).next_seq == old(self).next_seq,
    {
        let mut i: usize = 0;
        while i < self.tasks.len()
            invariant
                *self == *old(self),
                old(self).wf(),
                priority_valid(t@.priority),
                i <= self.tasks.len(),
                forall|k: int| 0 <= k < i ==> (#[trigger] self.tasks_view()[k]).id != t@.id,
            decreases self.tasks.len() - i,
        {
            if self.tasks[i].id == t.id {
                assert(self.tasks_view()[i as int].id == t@.id);
                self.tasks.set(i, t.clone());
                proof {
                    let pre = old(self).tasks_view();
                    let post = self.tasks_view();
                    assert(post =~= pre.update(i as int, t@));
                    assert forall|p: int| 0 <= p < post.len() implies (#[trigger] post[p]).id
                        == pre[p].id && priority_valid(post[p].priority) by {
                        if p != i {
                            assert(post[p] == pre[p]);
                        } else {
                            assert(post[p] == t@);
                        }
                    }
                    assert forall|p: int, q: int| 0 <= p < q < post.len() implies (
                    #[trigger] post[p]).id != (#[trigger] post[q]).id by {
                        assert(pre[p].id != pre[q].id);
                    }
                }
                return;
            }
            i += 1;
        }
        self.tasks.push(t.clone());
        proof {
            assert(self.tasks_view() =~= old(self).tasks_view().push(t@));
        }
    }

    /// Delete every stored task carrying the identifier; with unique
    /// identifiers, at most one. Logs and sequence number are untouched.
    pub fn delete_task(&mut self, id: u128)
        requires
            old(self).wf(),
        ensures
            final(self).wf(),
            final(self).tasks_view() =~= remove_id(old(self).tasks_view(), id),
            final(self).history@ == old(self).history@,
            final(self).redo@ == old(self).redo@,
            final(self).next_seq == old(self).next_seq,
    {
        let mut out: Vec<Task> = Vec::new();
        let mut i: usize = 0;
        proof {
            assert(views_of(out@) =~= remove_id(views_of(self.tasks@.take(0)), id)) by {
                assert(views_of(self.tasks@.take(0)) =~= Seq::<TaskView>::empty());
                assert(remove_id(Seq::<TaskView>::empty(), id) =~= Seq::<TaskView>::empty()) by {
                    reveal(Seq::filter);
                }
            }
        }
        while i < self.tasks.len()
            invariant
                *self == *old(self),
                i <= self.tasks.len(),
                views_of(out@) =~= remove_id(views_of(self.tasks@.take(i as int)), id),
            decreases self.tasks.len() - i,
        {
            let ghost prefix = views_of(self.tasks@.take(i as int));
            let ghost before = views_of(out@);
            if self.tasks[i].id != id {
                out.push(self.tasks[i].clone());
                proof {
                    assert(views_of(out@) =~= before.push(self.tasks@[i as int]@));
                }
            }
            proof {
                assert(views_of(self.tasks@.take(i as int + 1)) =~= prefix.push(
                    self.tasks@[i as int]@,
                ));
                lemma_remove_id_push(prefix, self.tasks@[i as int]@, id);
            }
            i += 1;
        }
        proof {
            assert(self.tasks@.take(self.tasks@.len() as int) =~= self.tasks@);
        }
        self.tasks = out;
        proof {
            lemma_remove_id_props(old(self).tasks_view(), id);
        }
    }

    /// Delete every stored task whose identifier is listed. Logs and
    /// sequence number are untouched.
    pub fn delete_ids(&mut self, ids: &Vec<u128>)
        requires
            old(self).wf(),
        ensures
            final(self).wf(),
            final(self).tasks_view() =~= remove_ids(old(self).tasks_view(), ids@),
            final(self).history@ == old(self).history@,
            final(self).redo@ == old(self).redo@,
            final(self).next_seq == old(self).next_seq,
    {
        let mut out: Vec<Task> = Vec::new();
        let mut i: usize = 0;
        proof {
            assert(views_of(out@) =~= remove_ids(views_of(self.tasks@.take(0)), ids@)) by {
                assert(views_of(self.tasks@.take(0)) =~= Seq::<TaskView>::empty());
                assert(remove_ids(Seq::<TaskView>::empty(), ids@) =~= Seq::<TaskView>::empty())
                    by {
                    reveal(Seq::filter);
                }
            }
        }
        while i < self.tasks.len()
            invariant
                *self == *old(self),
                i <= self.tasks.len(),
                views_of(out@) =~= remove_ids(views_of(self.tasks@.take(i as int)), ids@),
            decreases self.tasks.len() - i,
        {
            let ghost prefix = views_of(self.tasks@.take(i as int));
            let ghost before = views_of(out@);
            if !contains_u128(ids, self.tasks[i].id) {
                out.push(self.tasks[i].clone());
                proof {
                    assert(views_of(out@) =~= before.push(self.tasks@[i as int]@));
                }
            }
            proof {
                assert(views_of(self.tasks@.take(i as int + 1)) =~= prefix.push(
                    self.tasks@[i as int]@,
                ));
                lemma_remove_ids_push(prefix, self.tasks@[i as int]@, ids@);
            }
            i += 1;
        }
        proof {
            assert(self.tasks@.take(self.tasks@.len() as int) =~= self.tasks@);
        }
        self.tasks = out;
        proof {
            lemma_remove_ids_props(old(self).tasks_view(), ids@);
        }
    }

    /// Move up by one the position of every stored task whose position
    /// is above `cur` (or at it, when `inclusive`). Fails, changing
    /// nothing, when a position to be moved is already at the maximum.
    pub fn shift_positions(&mut self, cur: i64, inclusive: bool) -> (r: Result<
        (),
        TaskVimError,
    >)
        requires
            old(self).wf(),
        ensures
            match r {
                Ok(_) => {
                    &&& final(self).wf()
                    &&& final(self).tasks_view() =~= (if inclusive {
                        shift_ge(old(self).tasks_view(), cur)
                    } else {
                        shift_gt(old(self).tasks_view(), cur)
                    })
                    &&& !(exists|i: int|
                        0 <= i < old(self).tasks_view().len() && (#[trigger] old(
                            self,
                        ).tasks_view()[i]).position == i64::MAX && (if inclusive {
                            old(self).tasks_view()[i].position >= cur
                        } else {
                            old(self).tasks_view()[i].position > cur
                        }))
                    &&& final(self).history@ == old(self).history@
                    &&& final(self).redo@ == old(self).redo@
                    &&& final(self).next_seq == old(self).next_seq
                },
                Err(e) => {
                    &&& e matches TaskVimError::Internal(_)
                    &&& *final(self) == *old(self)
                    &&& exists|i: int|
                        0 <= i < old(self).tasks_view().len() && (#[trigger] old(
                            self,
                        ).tasks_view()[i]).position == i64::MAX && (if inclusive {
                            old(self).tasks_view()[i].position >= cur
                        } else {
                            old(self).tasks_view()[i].position > cur
                        })
                },
            },
    {
        // first pass: check for overflow
        let mut i: usize = 0;
        while i < self.tasks.len()
            invariant
                *self == *old(self),
                i <= self.tasks.len(),
                forall|k: int|
                    0 <= k < i ==> !((#[trigger] self.tasks_view()[k]).position == i64::MAX && (
                    if inclusive {
                        self.tasks_view()[k].position >= cur
                    } else {
                        self.tasks_view()[k].position > cur
                    })),
            decreases self.tasks.len() - i,
        {
            let moved = if inclusive {
                self.tasks[i].position >= cur
            } else {
                self.tasks[i].position > cur
            };
            if moved && self.tasks[i].position == i64::MAX {
                assert(self.tasks_view()[i as int].position == i64::MAX);
                return Err(
                    TaskVimError::Internal(String::from_str("position ordering exhausted")),
                );
            }
            i += 1;
        }
        // second pass: shift
        let ghost shifted = if inclusive {
            shift_ge(old(self).tasks_view(), cur)
        } else {
            shift_gt(old(self).tasks_view(), cur)
        };
        let mut out: Vec<Task> = Vec::new();
        let mut j: usize = 0;
        proof {
            assert(views_of(out@) =~= shifted.take(0));
        }
        while j < self.tasks.len()
            invariant
                *self == *old(self),
                shifted == (if inclusive {
                    shift_ge(old(self).tasks_view(), cur)
                } else {
                    shift_gt(old(self).tasks_view(), cur)
                }),
                j <= self.tasks@.len(),
                forall|k: int|
                    0 <= k < self.tasks@.len() ==> !((#[trigger] self.tasks_view()[k]).position
                        == i64::MAX && (if inclusive {
                        self.tasks_view()[k].position >= cur
                    } else {
                        self.tasks_view()[k].position > cur
                    })),
                views_of(out@) =~= shifted.take(j as int),
            decreases self.tasks@.len() - j,
        {
            let ghost before = views_of(out@);
            let moved = if inclusive {
                self.tasks[j].position >= cur
            } else {
                self.tasks[j].position > cur
            };
            if moved {
                assert(self.tasks_view()[j as int].position < i64::MAX);
                let mut c = self.tasks[j].clone();
                c.position = c.position + 1;
                out.push(c);
            } else {
                out.push(self.tasks[j].clone());
            }
            proof {
                assert(shifted[j as int] == (if (if inclusive {
                    self.tasks_view()[j as int].position >= cur
                } else {
                    self.tasks_view()[j as int].position > cur
                }) {
                    TaskView {
                        position: (self.tasks_view()[j as int].position + 1) as i64,
                        ..self.tasks_view()[j as int]
                    }
                } else {
                    self.tasks_view()[j as int]
                }));
                assert(views_of(out@) =~= before.push(shifted[j as int]));
                assert(views_of(out@) =~= shifted.take(j as int + 1)) by {
                    assert(shifted.take(j as int + 1) =~= shifted.take(j as int).push(
                        shifted[j as int],
                    ));
                }
            }
            j += 1;
        }
        proof {
            assert(shifted.take(shifted.len() as int) =~= shifted);
        }
        self.tasks = out;
        proof {
            let pre = old(self).tasks_view();
            let post = self.tasks_view();
            assert(post =~= shifted);
            assert forall|p: int| 0 <= p < post.len() implies (#[trigger] post[p]).id == pre[p].id
                && priority_valid(post[p].priority) by {}
            assert forall|p: int, q: int| 0 <= p < q < post.len() implies (#[trigger] post[p]).id
                != (#[trigger] post[q]).id by {
                assert(pre[p].id != pre[q].id);
            }
        }
        Ok(())
    }

    /// Record a snapshot in the undo log under a fresh sequence number.
    pub fn push_history(&mut self, t: &Task)
        requires
            old(self).wf(),
            old(self).next_seq < u64::MAX,
            priority_valid(t@.priority),
        ensures
            final(self).wf(),
            final(self).history_view() =~= old(self).history_view().push(
                (old(self).next_seq, t@),
            ),
            final(self).next_seq == old(self).next_seq + 1,
            final(self).tasks@ == old(self).tasks@,
            final(self).redo@ == old(self).redo@,
    {
        let e = HistoryEntry { id: self.next_seq, snapshot: t.clone(), timestamp: now_millis() };
        self.history.push(e);
        self.next_seq = self.next_seq + 1;
        proof {
            assert(self.history_view() =~= old(self).history_view().push(
                (old(self).next_seq, t@),
            ));
        }
    }

    /// Record a snapshot in the redo log under a fresh sequence number.
    pub fn push_redo(&mut self, t: &Task)
        requires
            old(self).wf(),
            old(self).next_seq < u64::MAX,
            priority_valid(t@.priority),
        ensures
            final(self).wf(),
            final(self).redo_view() =~= old(self).redo_view().push((old(self).next_seq, t@)),
            final(self).next_seq == old(self).next_seq + 1,
            final(self).tasks@ == old(self).tasks@,
            final(self).history@ == old(self).history@,
    {
        let e = HistoryEntry { id: self.next_seq, snapshot: t.clone(), timestamp: now_millis() };
        self.redo.push(e);
        self.next_seq = self.next_seq + 1;
        proof {
            assert(self.redo_view() =~= old(self).redo_view().push((old(self).next_seq, t@)));
        }
    }

    /// The undo entry with the highest sequence number: the last one.
    pub fn get_latest_history(&self) -> (r: Option<(u64, Task)>)
        ensures
            match r {
                Some(p) => self.history_view().len() > 0 && p.0 == self.history_view().last().0
                    && p.1@ == self.history_view().last().1,
                None => self.history_view().len() == 0,
            },
    {
        if self.history.len() == 0 {
            None
        } else {
            let e = &self.history[self.history.len() - 1];
            Some((e.id, e.snapshot.clone()))
        }
    }

    /// The redo entry with the highest sequence number: the last one.
    pub fn get_latest_redo(&self) -> (r: Option<(u64, Task)>)
        ensures
            match r {
                Some(p) => self.redo_view().len() > 0 && p.0 == self.redo_view().last().0 && p.1@
                    == self.redo_view().last().1,
                None => self.redo_view().len() == 0,
            },
    {
        if self.redo.len() == 0 {
            None
        } else {
            let e = &self.redo[self.redo.len() - 1];
            Some((e.id, e.snapshot.clone()))
        }
    }

    /// Remove the undo entries carrying the sequence number.
    pub fn delete_history_entry(&mut self, id: u64)
        requires
            old(self).wf(),
        ensures
            final(self).wf(),
            final(self).history_view() =~= log_remove(old(self).history_view(), id),
            final(self).tasks@ == old(self).tasks@,
            final(self).redo@ == old(self).redo@,
            final(self).next_seq == old(self).next_seq,
    {
        let mut out: Vec<HistoryEntry> = Vec::new();
        let mut i: usize = 0;
        proof {
            assert(log_view(out@) =~= log_remove(log_view(self.history@.take(0)), id)) by {
                assert(log_view(self.history@.take(0)) =~= Seq::<(u64, TaskView)>::empty());
                assert(log_remove(Seq::<(u64, TaskView)>::empty(), id) =~= Seq::<
                    (u64, TaskView),
                >::empty()) by {
                    reveal(Seq::filter);
                }
            }
        }
        while i < self.history.len()
            invariant
                *self == *old(self),
                i <= self.history.len(),
                log_view(out@) =~= log_remove(log_view(self.history@.take(i as int)), id),
            decreases self.history.len() - i,
        {
            let ghost prefix = log_view(self.history@.take(i as int));
            let ghost before = log_view(out@);
            if self.history[i].id != id {
                let e = &self.history[i];
                out.push(
                    HistoryEntry { id: e.id, snapshot: e.snapshot.clone(), timestamp: e.timestamp },
                );
                proof {
                    assert(log_view(out@) =~= before.push(
                        (self.history@[i as int].id, self.history@[i as int].snapshot@),
                    ));
                }
            }
            proof {
                assert(log_view(self.history@.take(i as int + 1)) =~= prefix.push(
                    (self.history@[i as int].id, self.history@[i as int].snapshot@),
                ));
                lemma_log_remove_push(
                    prefix,
                    (self.history@[i as int].id, self.history@[i as int].snapshot@),
                    id,
                );
            }
            i += 1;
        }
        proof {
            assert(self.history@.take(self.history@.len() as int) =~= self.history@);
        }
        self.history = out;
        proof {
            lemma_log_remove_props(old(self).history_view(), old(self).next_seq, id);
        }
    }

    /// Remove the redo entries carrying the sequence number.
    pub fn delete_redo_entry(&mut self, id: u64)
        requires
            old(self).wf(),
        ensures
            final(self).wf(),
            final(self).redo_view() =~= log_remove(old(self).redo_view(), id),
            final(self).tasks@ == old(self).tasks@,
            final(self).history@ == old(self).history@,
            final(self).next_seq == old(self).next_seq,
    {
        let mut out: Vec<HistoryEntry> = Vec::new();
        let mut i: usize = 0;
        proof {
            assert(log_view(out@) =~= log_remove(log_view(self.redo@.take(0)), id)) by {
                assert(log_view(self.redo@.take(0)) =~= Seq::<(u64, TaskView)>::empty());
                assert(log_remove(Seq::<(u64, TaskView)>::empty(), id) =~= Seq::<
                    (u64, TaskView),
                >::empty()) by {
                    reveal(Seq::filter);
                }
            }
        }
        while i < self.redo.len()
            invariant
                *self == *old(self),
                i <= self.redo.len(),
                log_view(out@) =~= log_remove(log_view(self.redo@.take(i as int)), id),
            decreases self.redo.len() - i,
        {
            let ghost prefix = log_view(self.redo@.take(i as int));
            let ghost before = log_view(out@);
            if self.redo[i].id != id {
                let e = &self.redo[i];
                out.push(
                    HistoryEntry { id: e.id, snapshot: e.snapshot.clone(), timestamp: e.timestamp },
                );
                proof {
                    assert(log_view(out@) =~= before.push(
                        (self.redo@[i as int].id, self.redo@[i as int].snapshot@),
                    ));
                }
            }
            proof {
                assert(log_view(self.redo@.take(i as int + 1)) =~= prefix.push(
                    (self.redo@[i as int].id, self.redo@[i as int].snapshot@),
                ));
                lemma_log_remove_push(
                    prefix,
                    (self.redo@[i as int].id, self.redo@[i as int].snapshot@),
                    id,
                );
            }
            i += 1;
        }
        proof {
            assert(self.redo@.take(self.redo@.len() as int) =~= self.redo@);
        }
        self.redo = out;
        proof {
            lemma_log_remove_props(old(self).redo_view(), old(self).next_seq, id);
        }
    }

    /// Empty the redo log.
    pub fn clear_redo(&mut self)
        requires
            old(self).wf(),
        ensures
            final(self).wf(),
            final(self).redo_view() =~= Seq::<(u64, TaskView)>::empty(),
            final(self).tasks@ == old(self).tasks@,
            final(self).history@ == old(self).history@,
            final(self).next_seq == old(self).next_seq,
    {
        self.redo = Vec::new();
    }

    /// The stored tasks matching the filter expression, ordered by
    /// position ascending and creation time descending. An expression
    /// naming an unusable field yields the validation error of its first
    /// unusable predicate.
    pub fn get_tasks(&self, filter_string: Option<&str>) -> (r: Result<Vec<Task>, TaskVimError>)
        requires
            self.wf(),
        ensures
            match r {
                Ok(v) => {
                    &&& preds_valid(active_preds(opt_str_view(filter_string)))
                    &&& sorted_tasks(SortKey::StoreOrder, views_of(v@))
                    &&& views_of(v@).to_multiset() == matching(
                        self.tasks_view(),
                        active_preds(opt_str_view(filter_string)),
                    ).to_multiset()
                },
                Err(e) => {
                    &&& !preds_valid(active_preds(opt_str_view(filter_string)))
                    &&& e matches TaskVimError::Validation(_)
                },
            },
    {
        let ghost psv = active_preds(opt_str_view(filter_string));
        let preds: Vec<Filter> = match filter_string {
            Some(s) => match Filter::parse(s) {
                Ok(ps) => ps,
                Err(_) => {
                    proof {
                        assert(false);
                    }
                    Vec::new()
                },
            },
            None => Vec::new(),
        };
        proof {
            assert(crate::query::filters_view(preds@) =~= psv);
        }
        // validate every predicate, as compiling it to SQL would
        let mut i: usize = 0;
        while i < preds.len()
            invariant
                i <= preds.len(),
                psv == active_preds(opt_str_view(filter_string)),
                crate::query::filters_view(preds@) =~= psv,
                forall|k: int| 0 <= k < i ==> column_of((#[trigger] psv[k]).field) is Some,
            decreases preds.len() - i,
        {
            match preds[i].to_sql_condition() {
                Ok(_) => {
                    assert(psv[i as int] == preds@[i as int]@);
                },
                Err(e) => {
                    assert(psv[i as int] == preds@[i as int]@);
                    assert(!preds_valid(psv));
                    return Err(e);
                },
            }
            i += 1;
        }
        // select the matching tasks in store order
        let mut sel: Vec<Task> = Vec::new();
        let mut j: usize = 0;
        proof {
            assert(views_of(sel@) =~= matching(views_of(self.tasks@.take(0)), psv)) by {
                assert(views_of(self.tasks@.take(0)) =~= Seq::<TaskView>::empty());
                assert(matching(Seq::<TaskView>::empty(), psv) =~= Seq::<TaskView>::empty()) by {
                    reveal(Seq::filter);
                }
            }
        }
        while j < self.tasks.len()
            invariant
                j <= self.tasks.len(),
                preds_valid(psv),
                crate::query::filters_view(preds@) =~= psv,
                views_of(sel@) =~= matching(views_of(self.tasks@.take(j as int)), psv),
            decreases self.tasks.len() - j,
        {
            let ghost prefix = views_of(self.tasks@.take(j as int));
            let ghost before = views_of(sel@);
            if eval_preds(&self.tasks[j], &preds) {
                sel.push(self.tasks[j].clone());
                proof {
                    assert(views_of(sel@) =~= before.push(self.tasks@[j as int]@));
                }
            }
            proof {
                assert(views_of(self.tasks@.take(j as int + 1)) =~= prefix.push(
                    self.tasks@[j as int]@,
                ));
                lemma_matching_push(prefix, self.tasks@[j as int]@, psv);
            }
            j += 1;
        }
        proof {
            assert(self.tasks@.take(self.tasks@.len() as int) =~= self.tasks@);
        }
        let sorted = sort_tasks(sel, SortKey::StoreOrder);
        Ok(sorted)
    }
}

} // verus!
