use vstd::prelude::*;

use crate::text::str_eq;

verus! {

/// Status of a task. The status cycle is the orbit
/// `Todo -> Doing -> Done -> Archived -> Todo`.
#[derive(Debug, Clone, Copy, PartialEq, Eq, Structural)]
pub enum TaskStatus {
    Todo,
    Doing,
    Done,
    Archived,
}

impl TaskStatus {
    /// The successor of a status along the cycle.
    pub open spec fn cycled(self) -> TaskStatus {
        match self {
            TaskStatus::Todo => TaskStatus::Doing,
            TaskStatus::Doing => TaskStatus::Done,
            TaskStatus::Done => TaskStatus::Archived,
            TaskStatus::Archived => TaskStatus::Todo,
        }
    }

    /// Advance a status one step along the cycle.
    pub fn cycle(self) -> (r: TaskStatus)
        ensures
            r == self.cycled(),
    {
        match self {
            TaskStatus::Todo => TaskStatus::Doing,
            TaskStatus::Doing => TaskStatus::Done,
            TaskStatus::Done => TaskStatus::Archived,
            TaskStatus::Archived => TaskStatus::Todo,
        }
    }

    /// The stable textual name of a status.
    pub open spec fn name_view(self) -> Seq<char> {
        match self {
            TaskStatus::Todo => "Todo"@,
            TaskStatus::Doing => "Doing"@,
            TaskStatus::Done => "Done"@,
            TaskStatus::Archived => "Archived"@,
        }
    }

    pub fn name(&self) -> (r: &'static str)
        ensures
            r@ == self.name_view(),
    {
        match self {
            TaskStatus::Todo => "Todo",
            TaskStatus::Doing => "Doing",
            TaskStatus::Done => "Done",
            TaskStatus::Archived => "Archived",
        }
    }

    /// The status a stored status name denotes; anything unrecognized
    /// falls back to `Todo`.
    pub open spec fn of_name(s: Seq<char>) -> TaskStatus {
        if s == "Doing"@ {
            TaskStatus::Doing
        } else if s == "Done"@ {
            TaskStatus::Done
        } else if s == "Archived"@ {
            TaskStatus::Archived
        } else {
            TaskStatus::Todo
        }
    }

    pub fn from_name(s: &str) -> (r: TaskStatus)
        ensures
            r == TaskStatus::of_name(s@),
    {
        if str_eq(s, "Doing") {
            TaskStatus::Doing
        } else if str_eq(s, "Done") {
            TaskStatus::Done
        } else if str_eq(s, "Archived") {
            TaskStatus::Archived
        } else {
            TaskStatus::Todo
        }
    }
}

impl Default for TaskStatus {
    fn default() -> (r: Self)
        ensures
            r == TaskStatus::Todo,
    {
        TaskStatus::Todo
    }
}

/// Cycling a status four times returns the original status, and one step
/// always changes it: the cycle has period four.
pub proof fn lemma_status_cycle_period(s: TaskStatus)
    ensures
        s.cycled().cycled().cycled().cycled() == s,
        s.cycled() != s,
{
}

/// A task. Identifiers are 128-bit values; timestamps are milliseconds
/// since the Unix epoch; `position` is the dense manual-ordering key
/// among visible tasks.
#[derive(Debug)]
pub struct Task {
    pub id: u128,
    pub title: String,
    pub description: Option<String>,
    pub status: TaskStatus,
    pub priority: i32,
    pub due_date: Option<i64>,
    pub created_at: i64,
    pub updated_at: i64,
    pub tags: Vec<String>,
    pub project: Option<String>,
    pub recurrence_rule: Option<String>,
    pub dependencies: Vec<u128>,
    pub position: i64,
}

/// A task priority is always within the inclusive range 1 to 5.
pub open spec fn priority_valid(p: i32) -> bool {
    1 <= p <= 5
}

/// The mathematical value of a task: the same fields, with the two vectors
/// abstracted to sequences.
#[verifier::ext_equal]
pub struct TaskView {
    pub id: u128,
    pub title: String,
    pub description: Option<String>,
    pub status: TaskStatus,
    pub priority: i32,
    pub due_date: Option<i64>,
    pub created_at: i64,
    pub updated_at: i64,
    pub tags: Seq<String>,
    pub project: Option<String>,
    pub recurrence_rule: Option<String>,
    pub dependencies: Seq<u128>,
    pub position: i64,
}

impl View for Task {
    type V = TaskView;

    open spec fn view(&self) -> TaskView {
        TaskView {
            id: self.id,
            title: self.title,
            description: self.description,
            status: self.status,
            priority: self.priority,
            due_date: self.due_date,
            created_at: self.created_at,
            updated_at: self.updated_at,
            tags: self.tags@,
            project: self.project,
            recurrence_rule: self.recurrence_rule,
            dependencies: self.dependencies@,
            position: self.position,
        }
    }
}

fn clone_opt_string(s: &Option<String>) -> (r: Option<String>)
    ensures
        r == *s,
{
    match s {
        Some(v) => Some(v.clone()),
        None => None,
    }
}

fn clone_string_vec(v: &Vec<String>) -> (r: Vec<String>)
    ensures
        r@ == v@,
{
    let mut out: Vec<String> = Vec::new();
    let mut i: usize = 0;
    while i < v.len()
        invariant
            i <= v.len(),
            out@ =~= v@.take(i as int),
        decreases v.len() - i,
    {
        out.push(v[i].clone());
        i += 1;
    }
    proof {
        assert(v@.take(v@.len() as int) =~= v@);
        assert(out@ == v@);
    }
    out
}

fn clone_id_vec(v: &Vec<u128>) -> (r: Vec<u128>)
    ensures
        r@ == v@,
{
    let mut out: Vec<u128> = Vec::new();
    let mut i: usize = 0;
    while i < v.len()
        invariant
            i <= v.len(),
            out@ =~= v@.take(i as int),
        decreases v.len() - i,
    {
        out.push(v[i]);
        i += 1;
    }
    proof {
        assert(v@.take(v@.len() as int) =~= v@);
        assert(out@ == v@);
    }
    out
}

impl Clone for Task {
    fn clone(&self) -> (r: Self)
        ensures
            r@ == self@,
    {
        Task {
            id: self.id,
            title: self.title.clone(),
            description: clone_opt_string(&self.description),
            status: self.status,
            priority: self.priority,
            due_date: self.due_date,
            created_at: self.created_at,
            updated_at: self.updated_at,
            tags: clone_string_vec(&self.tags),
            project: clone_opt_string(&self.project),
            recurrence_rule: clone_opt_string(&self.recurrence_rule),
            dependencies: clone_id_vec(&self.dependencies),
            position: self.position,
        }
    }
}

/// Relies on uuid::Uuid::new_v4 and uuid::Uuid::as_u128: a freshly drawn
/// random version-4 identifier, returned as its 128-bit value. The result
/// is random; nothing is promised of it.
#[verifier::external_body]
pub fn fresh_task_id() -> u128 {
    uuid::Uuid::new_v4().as_u128()
}

/// Relies on chrono::Utc::now and chrono::DateTime::timestamp_millis: the
/// current time in milliseconds since the Unix epoch. The result depends
/// on the clock; nothing is promised of it.
#[verifier::external_body]
pub fn now_millis() -> i64 {
    chrono::Utc::now().timestamp_millis()
}

/// The shape shared by every freshly created task: everything but the
/// identifier and the creation instant is fixed by the title.
pub open spec fn fresh_task(t: TaskView, title: Seq<char>) -> bool {
    &&& t.title@ == title
    &&& t.description is None
    &&& t.status == TaskStatus::Todo
    &&& t.priority == 3
    &&& t.due_date is None
    &&& t.created_at == t.updated_at
    &&& t.tags =~= Seq::<String>::empty()
    &&& t.project is None
    &&& t.recurrence_rule is None
    &&& t.dependencies =~= Seq::<u128>::empty()
    &&& t.position == 0
}

impl Task {
    /// A new task with the given title: status `Todo`, priority 3, no
    /// description, tags, project, recurrence rule or dependencies,
    /// position 0, and equal creation and update instants. The identifier
    /// is freshly drawn and the instants are read from the clock.
    pub fn new(title: String) -> (t: Task)
        ensures
            fresh_task(t@, title@),
    {
        let now = now_millis();
        Task {
            id: fresh_task_id(),
            title,
            description: None,
            status: TaskStatus::Todo,
            priority: 3,
            due_date: None,
            created_at: now,
            updated_at: now,
            tags: Vec::new(),
            project: None,
            recurrence_rule: None,
            dependencies: Vec::new(),
            position: 0,
        }
    }
}

} // verus!
