//! The task entity: the domain record, its fixed enumerations, and its own
//! status transitions.

use vstd::prelude::*;

use crate::dates::{date_lt, today, Date};

verus! {

#[derive(Clone, Copy, PartialEq, Eq, Structural, Debug)]
pub enum Category {
    Work,
    Personal,
    Study,
    Health,
    Other,
}

#[derive(Clone, Copy, PartialEq, Eq, Structural, Debug)]
pub enum Priority {
    High,
    Medium,
    Low,
}

#[derive(Clone, Copy, PartialEq, Eq, Structural, Debug)]
pub enum Status {
    Pending,
    InProgress,
    Completed,
}

/// Every category, in the order the statistics breakdown reports them.
pub open spec fn all_categories() -> Seq<Category> {
    seq![
        Category::Work,
        Category::Personal,
        Category::Study,
        Category::Health,
        Category::Other,
    ]
}

/// Every priority, in the order the statistics breakdown reports them.
pub open spec fn all_priorities() -> Seq<Priority> {
    seq![Priority::High, Priority::Medium, Priority::Low]
}

pub open spec fn category_label(c: Category) -> Seq<char> {
    match c {
        Category::Work => "Trabalho"@,
        Category::Personal => "Pessoal"@,
        Category::Study => "Estudos"@,
        Category::Health => "Saúde"@,
        Category::Other => "Outro"@,
    }
}

pub open spec fn priority_label(p: Priority) -> Seq<char> {
    match p {
        Priority::High => "Alta"@,
        Priority::Medium => "Média"@,
        Priority::Low => "Baixa"@,
    }
}

pub open spec fn status_label(s: Status) -> Seq<char> {
    match s {
        Status::Pending => "Pendente"@,
        Status::InProgress => "Em Andamento"@,
        Status::Completed => "Concluída"@,
    }
}

impl Category {
    /// Every category, for callers that render a complete breakdown.
    pub fn all() -> (r: Vec<Category>)
        ensures
            r@ == all_categories(),
    {
        let mut v: Vec<Category> = Vec::new();
        v.push(Category::Work);
        v.push(Category::Personal);
        v.push(Category::Study);
        v.push(Category::Health);
        v.push(Category::Other);
        proof {
            assert(v@ =~= all_categories());
        }
        v
    }

    /// The human label of the category.
    pub fn as_str(&self) -> (r: &'static str)
        ensures
            r@ == category_label(*self),
    {
        match self {
            Category::Work => "Trabalho",
            Category::Personal => "Pessoal",
            Category::Study => "Estudos",
            Category::Health => "Saúde",
            Category::Other => "Outro",
        }
    }
}

impl Priority {
    /// Every priority, for callers that render a complete breakdown.
    pub fn all() -> (r: Vec<Priority>)
        ensures
            r@ == all_priorities(),
    {
        let mut v: Vec<Priority> = Vec::new();
        v.push(Priority::High);
        v.push(Priority::Medium);
        v.push(Priority::Low);
        proof {
            assert(v@ =~= all_priorities());
        }
        v
    }

    /// The human label of the priority.
    pub fn as_str(&self) -> (r: &'static str)
        ensures
            r@ == priority_label(*self),
    {
        match self {
            Priority::High => "Alta",
            Priority::Medium => "Média",
            Priority::Low => "Baixa",
        }
    }
}

impl Status {
    /// The human label of the status.
    pub fn as_str(&self) -> (r: &'static str)
        ensures
            r@ == status_label(*self),
    {
        match self {
            Status::Pending => "Pendente",
            Status::InProgress => "Em Andamento",
            Status::Completed => "Concluída",
        }
    }
}

/// One unit of trackable work. The identifier is assigned by the service and
/// never changed; `created_at` and `completed_at` are clock readings in whole
/// seconds since the Unix epoch.
#[derive(Debug)]
pub struct Task {
    pub id: u32,
    pub title: String,
    pub description: String,
    pub category: Category,
    pub priority: Priority,
    pub status: Status,
    pub due_date: Option<Date>,
    pub created_at: i64,
    pub completed_at: Option<i64>,
}

/// The mathematical model of a task: the same record with the strings read as
/// character sequences.
pub struct TaskV {
    pub id: u32,
    pub title: Seq<char>,
    pub description: Seq<char>,
    pub category: Category,
    pub priority: Priority,
    pub status: Status,
    pub due_date: Option<Date>,
    pub created_at: i64,
    pub completed_at: Option<i64>,
}

impl View for Task {
    type V = TaskV;

    open spec fn view(&self) -> TaskV {
        TaskV {
            id: self.id,
            title: self.title@,
            description: self.description@,
            category: self.category,
            priority: self.priority,
            status: self.status,
            due_date: self.due_date,
            created_at: self.created_at,
            completed_at: self.completed_at,
        }
    }
}

impl DeepView for Task {
    type V = TaskV;

    open spec fn deep_view(&self) -> TaskV {
        self.view()
    }
}

/// A task record is well formed when its completion stamp is present exactly
/// on completed tasks.
pub open spec fn task_wf(t: TaskV) -> bool {
    t.completed_at is Some <==> t.status == Status::Completed
}

/// The `start` transition: a pending task moves to in progress; any other
/// task is left untouched.
pub open spec fn spec_start(t: TaskV) -> TaskV {
    if t.status == Status::Pending {
        TaskV { status: Status::InProgress, ..t }
    } else {
        t
    }
}

/// The `complete` transition with the clock reading `ts`.
pub open spec fn spec_complete(t: TaskV, ts: i64) -> TaskV {
    TaskV { status: Status::Completed, completed_at: Some(ts), ..t }
}

/// A task is overdue on a day when it has a due date strictly before that day
/// and is not completed.
pub open spec fn spec_overdue(t: TaskV, today: Date) -> bool {
    &&& t.status != Status::Completed
    &&& match t.due_date {
        Some(d) => date_lt(d, today),
        None => false,
    }
}

impl Clone for Task {
    fn clone(&self) -> (r: Self)
        ensures
            r == *self,
    {
        Task {
            id: self.id,
            title: self.title.clone(),
            description: self.description.clone(),
            category: self.category,
            priority: self.priority,
            status: self.status,
            due_date: self.due_date,
            created_at: self.created_at,
            completed_at: self.completed_at,
        }
    }
}

impl Task {
    /// Creates a task: status forced to pending, no completion stamp, creation
    /// stamp read from the clock.
    pub fn new(
        id: u32,
        title: String,
        description: String,
        category: Category,
        priority: Priority,
        due_date: Option<Date>,
    ) -> (t: Task)
        ensures
            t@ == (TaskV {
                id,
                title: title@,
                description: description@,
                category,
                priority,
                status: Status::Pending,
                due_date,
                created_at: t@.created_at,
                completed_at: None,
            }),
            task_wf(t@),
    {
        Task {
            id,
            title,
            description,
            category,
            priority,
            status: Status::Pending,
            due_date,
            created_at: crate::dates::now_timestamp(),
            completed_at: None,
        }
    }

    /// Marks the task completed, whatever its prior status, and stamps the
    /// completion time from the clock (re-completing overwrites the stamp).
    pub fn complete(&mut self)
        ensures
            final(self)@ == spec_complete(old(self)@, final(self)@.completed_at->0),
            final(self)@.completed_at is Some,
            task_wf(final(self)@),
    {
        self.status = Status::Completed;
        self.completed_at = Some(crate::dates::now_timestamp());
    }

    /// Moves a pending task to in progress; on any other status this is a
    /// no-op. In particular a completed task never leaves the completed
    /// status here.
    pub fn start(&mut self)
        ensures
            final(self)@ == spec_start(old(self)@),
            old(self)@.status == Status::Completed ==> final(self)@ == old(self)@,
            task_wf(old(self)@) ==> task_wf(final(self)@),
    {
        if self.status == Status::Pending {
            self.status = Status::InProgress;
        }
    }

    /// True exactly when the task is overdue as of the given day.
    pub fn is_overdue_on(&self, today: &Date) -> (r: bool)
        ensures
            r == spec_overdue(self@, *today),
    {
        if self.status != Status::Completed {
            match &self.due_date {
                Some(d) => d.is_before(today),
                None => false,
            }
        } else {
            false
        }
    }

    /// Whether the task is overdue as of the current local date. The clock
    /// decides the day; whatever it returns, a completed task or a task with
    /// no due date is never reported overdue.
    pub fn is_overdue(&self) -> (r: bool)
        ensures
            r ==> self@.status != Status::Completed && self@.due_date is Some,
    {
        let d = today();
        self.is_overdue_on(&d)
    }
}

/// Starting a task twice in a row ends in exactly the state that starting it
/// once does.
pub proof fn lemma_start_idempotent(t: TaskV)
    ensures
        spec_start(spec_start(t)) == spec_start(t),
{
}

/// Once a task is completed, the `start` transition changes nothing about it.
pub proof fn lemma_completed_is_terminal(t: TaskV)
    requires
        t.status == Status::Completed,
    ensures
        spec_start(t) == t,
{
}

} // verus!
