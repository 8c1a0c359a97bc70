//! The task service: sole owner of the in-memory collection. It allocates
//! identifiers, enforces the collection invariants, and produces and consumes
//! the persisted text (the caller moves that text to and from disk).

use vstd::prelude::*;

use crate::codec::{decode_tasks, enc_tasks, encode_tasks, parse_tasks, tasks_encodable};
use crate::dates::{today, Date};
use crate::errors::TaskError;
use crate::task::{
    all_categories, all_priorities, spec_complete, spec_overdue, spec_start, task_wf, Category,
    Priority, Status, Task, TaskV,
};

verus! {

/// The mathematical state of the service: the task records in collection
/// order, and the next identifier to hand out.
pub struct ServiceV {
    pub tasks: Seq<TaskV>,
    pub next_id: u32,
}

/// The service invariant: identifiers are pairwise distinct and all below the
/// allocator's next value, and every record is well formed.
pub open spec fn service_wf(s: ServiceV) -> bool {
    &&& s.next_id >= 1
    &&& forall|i: int| 0 <= i < s.tasks.len() ==> (#[trigger] s.tasks[i]).id < s.next_id
    &&& forall|i: int, j: int|
        0 <= i < j < s.tasks.len() ==> s.tasks[i].id != s.tasks[j].id
    &&& forall|i: int| 0 <= i < s.tasks.len() ==> task_wf(#[trigger] s.tasks[i])
}

/// Some record in `ts` carries the id.
pub open spec fn contains_id(ts: Seq<TaskV>, id: u32) -> bool {
    exists|i: int| 0 <= i < ts.len() && ts[i].id == id
}

/// The position of the record with the id (meaningful only when one exists;
/// under `service_wf` it is unique).
pub open spec fn index_of_id(ts: Seq<TaskV>, id: u32) -> int {
    choose|i: int| 0 <= i < ts.len() && ts[i].id == id
}

/// The largest id present, zero on an empty collection.
pub open spec fn max_id(ts: Seq<TaskV>) -> nat
    decreases ts.len(),
{
    if ts.len() == 0 {
        0
    } else if ts.last().id as nat > max_id(ts.drop_last()) {
        ts.last().id as nat
    } else {
        max_id(ts.drop_last())
    }
}

/// What a persisted collection must satisfy to be loaded: distinct ids, all
/// leaving room for a next allocation, and well-formed records.
pub open spec fn loadable(ts: Seq<TaskV>) -> bool {
    &&& forall|i: int, j: int| 0 <= i < j < ts.len() ==> ts[i].id != ts[j].id
    &&& forall|i: int| 0 <= i < ts.len() ==> (#[trigger] ts[i]).id < u32::MAX
    &&& forall|i: int| 0 <= i < ts.len() ==> task_wf(#[trigger] ts[i])
}

/// Tasks whose status is `st`.
pub open spec fn by_status(st: Status) -> spec_fn(TaskV) -> bool {
    |t: TaskV| t.status == st
}

/// Tasks whose category is `c`.
pub open spec fn by_category(c: Category) -> spec_fn(TaskV) -> bool {
    |t: TaskV| t.category == c
}

/// Tasks whose priority is `p`.
pub open spec fn by_priority(p: Priority) -> spec_fn(TaskV) -> bool {
    |t: TaskV| t.priority == p
}

/// Tasks overdue as of `d`.
pub open spec fn overdue_on(d: Date) -> spec_fn(TaskV) -> bool {
    |t: TaskV| spec_overdue(t, d)
}

pub proof fn lemma_max_id_bound(ts: Seq<TaskV>)
    ensures
        forall|i: int| 0 <= i < ts.len() ==> (#[trigger] ts[i]).id as nat <= max_id(ts),
    decreases ts.len(),
{
    if ts.len() > 0 {
        lemma_max_id_bound(ts.drop_last());
        assert(forall|i: int|
            0 <= i < ts.len() - 1 ==> ts.drop_last()[i] == #[trigger] ts[i]);
    }
}

proof fn lemma_max_id_in(ts: Seq<TaskV>)
    requires
        forall|i: int| 0 <= i < ts.len() ==> (#[trigger] ts[i]).id < u32::MAX,
    ensures
        max_id(ts) < u32::MAX,
    decreases ts.len(),
{
    if ts.len() > 0 {
        assert(forall|i: int|
            0 <= i < ts.len() - 1 ==> ts.drop_last()[i] == #[trigger] ts[i]);
        lemma_max_id_in(ts.drop_last());
    }
}

/// The single-user task engine over one in-memory collection.
#[derive(Debug)]
pub struct TaskService {
    tasks: Vec<Task>,
    next_id: u32,
}

impl View for TaskService {
    type V = ServiceV;

    closed spec fn view(&self) -> ServiceV {
        ServiceV { tasks: self.tasks.deep_view(), next_id: self.next_id }
    }
}

impl TaskService {
    /// A fresh service over an empty collection.
    pub fn new() -> (s: TaskService)
        ensures
            s@.tasks == Seq::<TaskV>::empty(),
            s@.next_id == 1,
            service_wf(s@),
    {
        let s = TaskService { tasks: Vec::new(), next_id: 1 };
        proof {
            assert(s@.tasks =~= Seq::<TaskV>::empty());
        }
        s
    }

    /// Re-hydrates a service from what the store read: `None` stands for a
    /// missing backing file and yields an empty collection (the expected
    /// first run); persisted text must parse and satisfy the collection
    /// invariants, else it is corrupt data and is never folded into an empty
    /// collection. The allocator resumes right above the largest persisted
    /// id.
    pub fn from_saved(data: Option<&str>) -> (r: Result<TaskService, TaskError>)
        ensures
            match data {
                None => {
                    &&& r is Ok
                    &&& r->Ok_0@.tasks == Seq::<TaskV>::empty()
                    &&& r->Ok_0@.next_id == 1
                },
                Some(text) => match r {
                    Ok(svc) => {
                        &&& parse_tasks(text@) == Some(svc@.tasks)
                        &&& loadable(svc@.tasks)
                        &&& svc@.next_id == max_id(svc@.tasks) + 1
                    },
                    Err(e) => {
                        &&& e == TaskError::CorruptData
                        &&& (parse_tasks(text@) matches Some(ts) ==> !loadable(ts))
                    },
                },
            },
            r is Ok ==> service_wf(r->Ok_0@),
    {
        if data.is_none() {
            return Ok(Self::new());
        }
        let text = data.unwrap();
        let tasks = match decode_tasks(text) {
            Ok(ts) => ts,
            Err(_) => {
                return Err(TaskError::CorruptData);
            },
        };
        let ghost all = tasks.deep_view();
        let mut max: u32 = 0;
        let mut k: usize = 0;
        while k < tasks.len()
            invariant
                data is Some && data->0 == text,
                parse_tasks(text@) == Some(all),
                k <= tasks.len(),
                all == tasks.deep_view(),
                all.len() == tasks.len(),
                max as nat == max_id(all.take(k as int)),
                forall|i: int| 0 <= i < k ==> (#[trigger] all[i]).id < u32::MAX,
                forall|i: int, j: int| 0 <= i < j < k ==> all[i].id != all[j].id,
                forall|i: int| 0 <= i < k ==> task_wf(#[trigger] all[i]),
            decreases tasks.len() - k,
        {
            let t = &tasks[k];
            let wf_here = match (&t.completed_at, &t.status) {
                (Some(_), Status::Completed) => true,
                (None, Status::Completed) => false,
                (Some(_), _) => false,
                (None, _) => true,
            };
            if !wf_here {
                proof {
                    assert(!task_wf(all[k as int]));
                    assert(!loadable(all));
                }
                return Err(TaskError::CorruptData);
            }
            if t.id == u32::MAX {
                proof {
                    assert(all[k as int].id == u32::MAX);
                    assert(!loadable(all));
                }
                return Err(TaskError::CorruptData);
            }
            let mut j: usize = 0;
            while j < k
                invariant
                    data is Some && data->0 == text,
                    parse_tasks(text@) == Some(all),
                    j <= k,
                    k < tasks.len(),
                    all == tasks.deep_view(),
                    all.len() == tasks.len(),
                    forall|i: int| 0 <= i < j ==> all[i].id != all[k as int].id,
                decreases k - j,
            {
                if tasks[j].id == tasks[k].id {
                    proof {
                        assert(all[j as int].id == all[k as int].id);
                        assert(!loadable(all));
                    }
                    return Err(TaskError::CorruptData);
                }
                j = j + 1;
            }
            if t.id > max {
                max = t.id;
            }
            proof {
                assert(all.take(k + 1 as int).drop_last() =~= all.take(k as int));
                assert(all.take(k + 1 as int).last() == all[k as int]);
            }
            k = k + 1;
        }
        proof {
            assert(all.take(tasks.len() as int) =~= all);
            lemma_max_id_bound(all);
            lemma_max_id_in(all);
        }
        Ok(TaskService { tasks, next_id: max + 1 })
    }

    /// The persisted text of the current collection, for the store to write.
    pub fn encoded(&self) -> (r: String)
        ensures
            r@ == enc_tasks(self@.tasks),
    {
        encode_tasks(&self.tasks)
    }

    /// Adds a new task under a fresh id: the id is distinct from every id in
    /// the collection, the record enters at the end, and the allocator moves
    /// on. Returns the stored record.
    pub fn add_task(
        &mut self,
        title: String,
        description: String,
        category: Category,
        priority: Priority,
        due_date: Option<Date>,
    ) -> (t: Task)
        requires
            service_wf(old(self)@),
            old(self)@.next_id < u32::MAX,
        ensures
            service_wf(final(self)@),
            t@ == (TaskV {
                id: old(self)@.next_id,
                title: title@,
                description: description@,
                category,
                priority,
                status: Status::Pending,
                due_date,
                created_at: t@.created_at,
                completed_at: None,
            }),
            final(self)@.tasks == old(self)@.tasks.push(t@),
            final(self)@.next_id == old(self)@.next_id + 1,
            forall|i: int|
                0 <= i < old(self)@.tasks.len() ==> (#[trigger] old(self)@.tasks[i]).id != t@.id,
    {
        let task = Task::new(self.next_id, title, description, category, priority, due_date);
        let ghost pre = self.tasks.deep_view();
        let stored = task.clone();
        self.tasks.push(stored);
        self.next_id = self.next_id + 1;
        proof {
            assert(self.tasks.deep_view() =~= pre.push(task@));
        }
        task
    }

    /// The id the next added task will get.
    pub fn next_id(&self) -> (r: u32)
        ensures
            r == self@.next_id,
    {
        self.next_id
    }

    /// Every task, in collection order.
    pub fn list_all(&self) -> (r: &Vec<Task>)
        ensures
            r.deep_view() == self@.tasks,
    {
        &self.tasks
    }

    /// The position of the record carrying `id`, if any.
    fn find_index(&self, id: u32) -> (r: Option<usize>)
        ensures
            match r {
                Some(k) => k < self@.tasks.len() && self@.tasks[k as int].id == id,
                None => !contains_id(self@.tasks, id),
            },
    {
        let mut k: usize = 0;
        while k < self.tasks.len()
            invariant
                k <= self@.tasks.len(),
                self@.tasks.len() == self.tasks.len(),
                forall|i: int| 0 <= i < k ==> (#[trigger] self@.tasks[i]).id != id,
            decreases self.tasks.len() - k,
        {
            if self.tasks[k].id == id {
                return Some(k);
            }
            k = k + 1;
        }
        None
    }

    /// The task with the given id, if present.
    pub fn get_by_id(&self, id: u32) -> (r: Option<&Task>)
        requires
            service_wf(self@),
        ensures
            match r {
                Some(t) => {
                    &&& contains_id(self@.tasks, id)
                    &&& t@ == self@.tasks[index_of_id(self@.tasks, id)]
                    &&& t@.id == id
                },
                None => !contains_id(self@.tasks, id),
            },
    {
        match self.find_index(id) {
            None => None,
            Some(k) => {
                proof {
                    lemma_index_of_unique(self@.tasks, id, k as int);
                }
                Some(&self.tasks[k])
            },
        }
    }
}

/// The fields of `t` overwritten by the present options, the rest kept.
pub open spec fn spec_update_fields(
    t: TaskV,
    title: Option<Seq<char>>,
    description: Option<Seq<char>>,
    category: Option<Category>,
    priority: Option<Priority>,
    due_date: Option<Option<Date>>,
) -> TaskV {
    TaskV {
        title: if title is Some {
            title->0
        } else {
            t.title
        },
        description: if description is Some {
            description->0
        } else {
            t.description
        },
        category: if category is Some {
            category->0
        } else {
            t.category
        },
        priority: if priority is Some {
            priority->0
        } else {
            t.priority
        },
        due_date: if due_date is Some {
            due_date->0
        } else {
            t.due_date
        },
        ..t
    }
}

impl TaskService {
    /// Overwrites the fields for which a new value is present on the task
    /// carrying `id`; absent fields are left untouched. Status and both time
    /// stamps are never touched here. Fails with `NotFound`, changing
    /// nothing, exactly when no task carries the id.
    pub fn update_task(
        &mut self,
        id: u32,
        title: Option<String>,
        description: Option<String>,
        category: Option<Category>,
        priority: Option<Priority>,
        due_date: Option<Option<Date>>,
    ) -> (r: Result<(), TaskError>)
        requires
            service_wf(old(self)@),
        ensures
            service_wf(final(self)@),
            final(self)@.next_id == old(self)@.next_id,
            match r {
                Ok(()) => {
                    &&& contains_id(old(self)@.tasks, id)
                    &&& final(self)@.tasks == old(self)@.tasks.update(
                        index_of_id(old(self)@.tasks, id),
                        spec_update_fields(
                            old(self)@.tasks[index_of_id(old(self)@.tasks, id)],
                            title.deep_view(),
                            description.deep_view(),
                            category,
                            priority,
                            due_date,
                        ),
                    )
                },
                Err(e) => {
                    &&& e == TaskError::NotFound
                    &&& !contains_id(old(self)@.tasks, id)
                    &&& final(self)@ == old(self)@
                },
            },
    {
        let k = match self.find_index(id) {
            None => {
                return Err(TaskError::NotFound);
            },
            Some(k) => k,
        };
        proof {
            lemma_index_of_unique(self@.tasks, id, k as int);
        }
        let ghost pre_vec = self.tasks@;
        let t = self.tasks.remove(k);
        let t2 = Task {
            id: t.id,
            title: match title {
                Some(x) => x,
                None => t.title,
            },
            description: match description {
                Some(x) => x,
                None => t.description,
            },
            category: match category {
                Some(c) => c,
                None => t.category,
            },
            priority: match priority {
                Some(p) => p,
                None => t.priority,
            },
            status: t.status,
            due_date: match due_date {
                Some(d) => d,
                None => t.due_date,
            },
            created_at: t.created_at,
            completed_at: t.completed_at,
        };
        let ghost te = t2;
        self.tasks.insert(k, t2);
        proof {
            assert(self.tasks@ =~= pre_vec.update(k as int, te));
            assert(self.tasks.deep_view() =~= old(self).tasks.deep_view().update(
                k as int,
                te.deep_view(),
            ));
        }
        Ok(())
    }

    /// Marks the task carrying `id` completed, whatever its prior status, and
    /// stamps the completion time (re-completing overwrites the stamp).
    /// Fails with `NotFound`, changing nothing, exactly when no task carries
    /// the id.
    pub fn complete_task(&mut self, id: u32) -> (r: Result<(), TaskError>)
        requires
            service_wf(old(self)@),
        ensures
            service_wf(final(self)@),
            final(self)@.next_id == old(self)@.next_id,
            match r {
                Ok(()) => {
                    &&& contains_id(old(self)@.tasks, id)
                    &&& final(self)@.tasks == old(self)@.tasks.update(
                        index_of_id(old(self)@.tasks, id),
                        spec_complete(
                            old(self)@.tasks[index_of_id(old(self)@.tasks, id)],
                            final(self)@.tasks[index_of_id(old(self)@.tasks, id)].completed_at->0,
                        ),
                    )
                },
                Err(e) => {
                    &&& e == TaskError::NotFound
                    &&& !contains_id(old(self)@.tasks, id)
                    &&& final(self)@ == old(self)@
                },
            },
    {
        let k = match self.find_index(id) {
            None => {
                return Err(TaskError::NotFound);
            },
            Some(k) => k,
        };
        proof {
            lemma_index_of_unique(self@.tasks, id, k as int);
        }
        let ghost pre_vec = self.tasks@;
        let mut t = self.tasks.remove(k);
        t.complete();
        let ghost te = t;
        self.tasks.insert(k, t);
        proof {
            assert(self.tasks@ =~= pre_vec.update(k as int, te));
            assert(self.tasks.deep_view() =~= old(self).tasks.deep_view().update(
                k as int,
                te.deep_view(),
            ));
        }
        Ok(())
    }

    /// Moves the task carrying `id` from pending to in progress; on a task in
    /// any other status this changes nothing about the task — in particular
    /// a completed task stays completed. Fails with `NotFound`, changing
    /// nothing, exactly when no task carries the id.
    pub fn start_task(&mut self, id: u32) -> (r: Result<(), TaskError>)
        requires
            service_wf(old(self)@),
        ensures
            service_wf(final(self)@),
            final(self)@.next_id == old(self)@.next_id,
            match r {
                Ok(()) => {
                    &&& contains_id(old(self)@.tasks, id)
                    &&& final(self)@.tasks == old(self)@.tasks.update(
                        index_of_id(old(self)@.tasks, id),
                        spec_start(old(self)@.tasks[index_of_id(old(self)@.tasks, id)]),
                    )
                    &&& old(self)@.tasks[index_of_id(old(self)@.tasks, id)].status
                        == Status::Completed ==> final(self)@.tasks == old(self)@.tasks
                },
                Err(e) => {
                    &&& e == TaskError::NotFound
                    &&& !contains_id(old(self)@.tasks, id)
                    &&& final(self)@ == old(self)@
                },
            },
    {
        let k = match self.find_index(id) {
            None => {
                return Err(TaskError::NotFound);
            },
            Some(k) => k,
        };
        proof {
            lemma_index_of_unique(self@.tasks, id, k as int);
        }
        let ghost pre_vec = self.tasks@;
        let mut t = self.tasks.remove(k);
        t.start();
        let ghost te = t;
        self.tasks.insert(k, t);
        proof {
            assert(self.tasks@ =~= pre_vec.update(k as int, te));
            assert(self.tasks.deep_view() =~= old(self).tasks.deep_view().update(
                k as int,
                te.deep_view(),
            ));
            if old(self)@.tasks[k as int].status == Status::Completed {
                assert(self.tasks.deep_view() =~= old(self).tasks.deep_view());
            }
        }
        Ok(())
    }

    /// Removes the task carrying `id` permanently. Fails with `NotFound`,
    /// changing nothing, exactly when no task carries the id.
    pub fn delete_task(&mut self, id: u32) -> (r: Result<(), TaskError>)
        requires
            service_wf(old(self)@),
        ensures
            service_wf(final(self)@),
            final(self)@.next_id == old(self)@.next_id,
            match r {
                Ok(()) => {
                    &&& contains_id(old(self)@.tasks, id)
                    &&& final(self)@.tasks == old(self)@.tasks.remove(
                        index_of_id(old(self)@.tasks, id),
                    )
                },
                Err(e) => {
                    &&& e == TaskError::NotFound
                    &&& !contains_id(old(self)@.tasks, id)
                    &&& final(self)@ == old(self)@
                },
            },
    {
        let k = match self.find_index(id) {
            None => {
                return Err(TaskError::NotFound);
            },
            Some(k) => k,
        };
        proof {
            lemma_index_of_unique(self@.tasks, id, k as int);
        }
        let _ = self.tasks.remove(k);
        proof {
            let pre = old(self).tasks.deep_view();
            let post = self.tasks.deep_view();
            assert(post =~= pre.remove(k as int));
            assert forall|i: int, j: int| 0 <= i < j < post.len() implies post[i].id
                != post[j].id by {
                let oi: int = if i < k { i } else { i + 1 };
                let oj: int = if j < k { j } else { j + 1 };
                assert(post[i] == pre[oi]);
                assert(post[j] == pre[oj]);
            }
        }
        Ok(())
    }
}

/// Aggregate counts over the collection: the three status counts, the overdue
/// count, and a complete per-category and per-priority breakdown (zero counts
/// included).
#[derive(Debug)]
pub struct Statistics {
    pub total: usize,
    pub completed: usize,
    pub in_progress: usize,
    pub pending: usize,
    pub overdue: usize,
    pub by_category: Vec<(Category, usize)>,
    pub by_priority: Vec<(Priority, usize)>,
}

impl TaskService {
    /// The tasks with the given status, in collection order (a snapshot).
    pub fn filter_by_status(&self, status: Status) -> (r: Vec<&Task>)
        ensures
            r.deep_view() == self@.tasks.filter(by_status(status)),
    {
        let mut r: Vec<&Task> = Vec::new();
        let ghost all = self@.tasks;
        proof {
            assert(r.deep_view() =~= all.take(0).filter(by_status(status))) by {
                reveal(Seq::filter);
                assert(all.take(0) =~= Seq::<TaskV>::empty());
            }
        }
        let mut k: usize = 0;
        while k < self.tasks.len()
            invariant
                k <= self.tasks.len(),
                all == self@.tasks,
                all.len() == self.tasks.len(),
                r.deep_view() == all.take(k as int).filter(by_status(status)),
            decreases self.tasks.len() - k,
        {
            let ghost pre = r.deep_view();
            if self.tasks[k].status == status {
                r.push(&self.tasks[k]);
            }
            proof {
                reveal(Seq::filter);
                assert(all.take(k + 1 as int).drop_last() =~= all.take(k as int));
                assert(all.take(k + 1 as int).last() == all[k as int]);
                if by_status(status)(all[k as int]) {
                    assert(r.deep_view() =~= pre.push(all[k as int]));
                } else {
                    assert(r.deep_view() =~= pre);
                }
            }
            k = k + 1;
        }
        proof {
            assert(all.take(self.tasks.len() as int) =~= all);
        }
        r
    }

    /// The tasks in the given category, in collection order (a snapshot).
    pub fn filter_by_category(&self, category: Category) -> (r: Vec<&Task>)
        ensures
            r.deep_view() == self@.tasks.filter(by_category(category)),
    {
        let mut r: Vec<&Task> = Vec::new();
        let ghost all = self@.tasks;
        proof {
            assert(r.deep_view() =~= all.take(0).filter(by_category(category))) by {
                reveal(Seq::filter);
                assert(all.take(0) =~= Seq::<TaskV>::empty());
            }
        }
        let mut k: usize = 0;
        while k < self.tasks.len()
            invariant
                k <= self.tasks.len(),
                all == self@.tasks,
                all.len() == self.tasks.len(),
                r.deep_view() == all.take(k as int).filter(by_category(category)),
            decreases self.tasks.len() - k,
        {
            let ghost pre = r.deep_view();
            if self.tasks[k].category == category {
                r.push(&self.tasks[k]);
            }
            proof {
                reveal(Seq::filter);
                assert(all.take(k + 1 as int).drop_last() =~= all.take(k as int));
                assert(all.take(k + 1 as int).last() == all[k as int]);
                if by_category(category)(all[k as int]) {
                    assert(r.deep_view() =~= pre.push(all[k as int]));
                } else {
                    assert(r.deep_view() =~= pre);
                }
            }
            k = k + 1;
        }
        proof {
            assert(all.take(self.tasks.len() as int) =~= all);
        }
        r
    }

    /// The tasks with the given priority, in collection order (a snapshot).
    pub fn filter_by_priority(&self, priority: Priority) -> (r: Vec<&Task>)
        ensures
            r.deep_view() == self@.tasks.filter(by_priority(priority)),
    {
        let mut r: Vec<&Task> = Vec::new();
        let ghost all = self@.tasks;
        proof {
            assert(r.deep_view() =~= all.take(0).filter(by_priority(priority))) by {
                reveal(Seq::filter);
                assert(all.take(0) =~= Seq::<TaskV>::empty());
            }
        }
        let mut k: usize = 0;
        while k < self.tasks.len()
            invariant
                k <= self.tasks.len(),
                all == self@.tasks,
                all.len() == self.tasks.len(),
                r.deep_view() == all.take(k as int).filter(by_priority(priority)),
            decreases self.tasks.len() - k,
        {
            let ghost pre = r.deep_view();
            if self.tasks[k].priority == priority {
                r.push(&self.tasks[k]);
            }
            proof {
                reveal(Seq::filter);
                assert(all.take(k + 1 as int).drop_last() =~= all.take(k as int));
                assert(all.take(k + 1 as int).last() == all[k as int]);
                if by_priority(priority)(all[k as int]) {
                    assert(r.deep_view() =~= pre.push(all[k as int]));
                } else {
                    assert(r.deep_view() =~= pre);
                }
            }
            k = k + 1;
        }
        proof {
            assert(all.take(self.tasks.len() as int) =~= all);
        }
        r
    }

    /// The tasks overdue as of the given day, in collection order.
    pub fn get_overdue_on(&self, day: &Date) -> (r: Vec<&Task>)
        ensures
            r.deep_view() == self@.tasks.filter(overdue_on(*day)),
    {
        let mut r: Vec<&Task> = Vec::new();
        let ghost all = self@.tasks;
        proof {
            assert(r.deep_view() =~= all.take(0).filter(overdue_on(*day))) by {
                reveal(Seq::filter);
                assert(all.take(0) =~= Seq::<TaskV>::empty());
            }
        }
        let mut k: usize = 0;
        while k < self.tasks.len()
            invariant
                k <= self.tasks.len(),
                all == self@.tasks,
                all.len() == self.tasks.len(),
                r.deep_view() == all.take(k as int).filter(overdue_on(*day)),
            decreases self.tasks.len() - k,
        {
            let ghost pre = r.deep_view();
            if self.tasks[k].is_overdue_on(day) {
                r.push(&self.tasks[k]);
            }
            proof {
                reveal(Seq::filter);
                assert(all.take(k + 1 as int).drop_last() =~= all.take(k as int));
                assert(all.take(k + 1 as int).last() == all[k as int]);
                if overdue_on(*day)(all[k as int]) {
                    assert(r.deep_view() =~= pre.push(all[k as int]));
                } else {
                    assert(r.deep_view() =~= pre);
                }
            }
            k = k + 1;
        }
        proof {
            assert(all.take(self.tasks.len() as int) =~= all);
        }
        r
    }

    /// The tasks overdue as of the current local date. The clock decides the
    /// day; whatever it says, the result is the overdue filter for that day,
    /// so it never holds a completed task or one without a due date.
    pub fn get_overdue(&self) -> (r: Vec<&Task>)
        ensures
            exists|d: Date| r.deep_view() == self@.tasks.filter(overdue_on(d)),
            forall|i: int|
                0 <= i < r.deep_view().len() ==> (#[trigger] r.deep_view()[i]).status
                    != Status::Completed && r.deep_view()[i].due_date is Some,
    {
        let d = today();
        let r = self.get_overdue_on(&d);
        proof {
            assert(r.deep_view() == self@.tasks.filter(overdue_on(d)));
            assert forall|i: int| 0 <= i < r.deep_view().len() implies (#[trigger] r.deep_view()[i]).status
                != Status::Completed && r.deep_view()[i].due_date is Some by {
                self@.tasks.lemma_filter_pred(overdue_on(d), i);
            }
        }
        r
    }
}

/// Every task has exactly one of the three statuses, so the three status
/// counts partition the collection.
pub proof fn lemma_status_partition(ts: Seq<TaskV>)
    ensures
        ts.filter(by_status(Status::Pending)).len() + ts.filter(
            by_status(Status::InProgress),
        ).len() + ts.filter(by_status(Status::Completed)).len() == ts.len(),
    decreases ts.len(),
{
    reveal(Seq::filter);
    if ts.len() > 0 {
        lemma_status_partition(ts.drop_last());
    }
}

/// Every task is in exactly one category, so the per-category counts sum to
/// the collection size.
pub proof fn lemma_category_partition(ts: Seq<TaskV>)
    ensures
        ts.filter(by_category(Category::Work)).len() + ts.filter(
            by_category(Category::Personal),
        ).len() + ts.filter(by_category(Category::Study)).len() + ts.filter(
            by_category(Category::Health),
        ).len() + ts.filter(by_category(Category::Other)).len() == ts.len(),
    decreases ts.len(),
{
    reveal(Seq::filter);
    if ts.len() > 0 {
        lemma_category_partition(ts.drop_last());
    }
}

/// Every task has exactly one priority, so the per-priority counts sum to the
/// collection size.
pub proof fn lemma_priority_partition(ts: Seq<TaskV>)
    ensures
        ts.filter(by_priority(Priority::High)).len() + ts.filter(
            by_priority(Priority::Medium),
        ).len() + ts.filter(by_priority(Priority::Low)).len() == ts.len(),
    decreases ts.len(),
{
    reveal(Seq::filter);
    if ts.len() > 0 {
        lemma_priority_partition(ts.drop_last());
    }
}

impl TaskService {
    /// Aggregate counts as of the given day: the status counts partition the
    /// total, and each breakdown covers every enumerated value in order and
    /// sums to the total.
    pub fn statistics_on(&self, day: &Date) -> (r: Statistics)
        ensures
            r.total == self@.tasks.len(),
            r.completed == self@.tasks.filter(by_status(Status::Completed)).len(),
            r.in_progress == self@.tasks.filter(by_status(Status::InProgress)).len(),
            r.pending == self@.tasks.filter(by_status(Status::Pending)).len(),
            r.overdue == self@.tasks.filter(overdue_on(*day)).len(),
            r.total == r.pending + r.in_progress + r.completed,
            r.by_category@.len() == all_categories().len(),
            forall|i: int|
                0 <= i < all_categories().len() ==> (#[trigger] r.by_category@[i]).0
                    == all_categories()[i] && r.by_category@[i].1 == self@.tasks.filter(
                    by_category(all_categories()[i]),
                ).len(),
            r.by_category@[0].1 + r.by_category@[1].1 + r.by_category@[2].1 + r.by_category@[3].1
                + r.by_category@[4].1 == r.total,
            r.by_priority@.len() == all_priorities().len(),
            forall|i: int|
                0 <= i < all_priorities().len() ==> (#[trigger] r.by_priority@[i]).0
                    == all_priorities()[i] && r.by_priority@[i].1 == self@.tasks.filter(
                    by_priority(all_priorities()[i]),
                ).len(),
            r.by_priority@[0].1 + r.by_priority@[1].1 + r.by_priority@[2].1 == r.total,
    {
        let total = self.tasks.len();
        let completed = self.filter_by_status(Status::Completed).len();
        let in_progress = self.filter_by_status(Status::InProgress).len();
        let pending = self.filter_by_status(Status::Pending).len();
        let overdue = self.get_overdue_on(day).len();
        let cats = Category::all();
        let mut cat_counts: Vec<(Category, usize)> = Vec::new();
        let mut k: usize = 0;
        while k < cats.len()
            invariant
                cats@ == all_categories(),
                k <= cats@.len(),
                cat_counts@.len() == k,
                forall|i: int|
                    0 <= i < k ==> (#[trigger] cat_counts@[i]).0 == all_categories()[i]
                        && cat_counts@[i].1 == self@.tasks.filter(
                        by_category(all_categories()[i]),
                    ).len(),
            decreases cats@.len() - k,
        {
            let c = cats[k];
            let cnt = self.filter_by_category(c).len();
            cat_counts.push((c, cnt));
            k = k + 1;
        }
        let pris = Priority::all();
        let mut pri_counts: Vec<(Priority, usize)> = Vec::new();
        let mut k2: usize = 0;
        while k2 < pris.len()
            invariant
                pris@ == all_priorities(),
                k2 <= pris@.len(),
                pri_counts@.len() == k2,
                forall|i: int|
                    0 <= i < k2 ==> (#[trigger] pri_counts@[i]).0 == all_priorities()[i]
                        && pri_counts@[i].1 == self@.tasks.filter(
                        by_priority(all_priorities()[i]),
                    ).len(),
            decreases pris@.len() - k2,
        {
            let p = pris[k2];
            let cnt = self.filter_by_priority(p).len();
            pri_counts.push((p, cnt));
            k2 = k2 + 1;
        }
        proof {
            lemma_status_partition(self@.tasks);
            lemma_category_partition(self@.tasks);
            lemma_priority_partition(self@.tasks);
        }
        Statistics {
            total,
            completed,
            in_progress,
            pending,
            overdue,
            by_category: cat_counts,
            by_priority: pri_counts,
        }
    }

    /// Aggregate counts as of the current local date. Everything but the
    /// overdue count is independent of the clock; the overdue count is the
    /// overdue filter for whatever day the clock gave.
    pub fn get_statistics(&self) -> (r: Statistics)
        ensures
            r.total == self@.tasks.len(),
            r.completed == self@.tasks.filter(by_status(Status::Completed)).len(),
            r.in_progress == self@.tasks.filter(by_status(Status::InProgress)).len(),
            r.pending == self@.tasks.filter(by_status(Status::Pending)).len(),
            exists|d: Date| r.overdue == self@.tasks.filter(overdue_on(d)).len(),
            r.total == r.pending + r.in_progress + r.completed,
            r.by_category@.len() == all_categories().len(),
            forall|i: int|
                0 <= i < all_categories().len() ==> (#[trigger] r.by_category@[i]).0
                    == all_categories()[i] && r.by_category@[i].1 == self@.tasks.filter(
                    by_category(all_categories()[i]),
                ).len(),
            r.by_category@[0].1 + r.by_category@[1].1 + r.by_category@[2].1 + r.by_category@[3].1
                + r.by_category@[4].1 == r.total,
            r.by_priority@.len() == all_priorities().len(),
            forall|i: int|
                0 <= i < all_priorities().len() ==> (#[trigger] r.by_priority@[i]).0
                    == all_priorities()[i] && r.by_priority@[i].1 == self@.tasks.filter(
                    by_priority(all_priorities()[i]),
                ).len(),
            r.by_priority@[0].1 + r.by_priority@[1].1 + r.by_priority@[2].1 == r.total,
    {
        let d = today();
        let r = self.statistics_on(&d);
        proof {
            assert(r.overdue == self@.tasks.filter(overdue_on(d)).len());
        }
        r
    }
}

/// Round trip through the store: for any collection a well-formed service can
/// hold (sizes within one machine word), the persisted text of `encoded`
/// parses back to exactly the same records, field for field and in order, and
/// passes the load-time validation — so `from_saved` on that text must return
/// a service holding the very same collection.
pub proof fn lemma_save_load_round_trip(svc: ServiceV)
    requires
        service_wf(svc),
        tasks_encodable(svc.tasks),
    ensures
        parse_tasks(enc_tasks(svc.tasks)) == Some(svc.tasks),
        loadable(svc.tasks),
{
    crate::codec::lemma_parse_enc_tasks(svc.tasks);
}

/// Overdue membership: a task with a due date strictly before the day and not
/// yet completed is among the overdue tasks of that day; a completed task
/// never is.
pub proof fn lemma_overdue_membership(ts: Seq<TaskV>, i: int, d: Date)
    requires
        0 <= i < ts.len(),
    ensures
        spec_overdue(ts[i], d) ==> ts.filter(overdue_on(d)).contains(ts[i]),
        ts[i].status == Status::Completed ==> !ts.filter(overdue_on(d)).contains(ts[i]),
{
    if spec_overdue(ts[i], d) {
        ts.lemma_filter_contains(overdue_on(d), i);
    }
    if ts[i].status == Status::Completed && ts.filter(overdue_on(d)).contains(ts[i]) {
        let j = choose|j: int| 0 <= j < ts.filter(overdue_on(d)).len() && ts.filter(overdue_on(d))[j] == ts[i];
        ts.lemma_filter_pred(overdue_on(d), j);
    }
}

/// Starting the same task twice in a row leaves the collection exactly as
/// starting it once does.
pub proof fn lemma_start_task_idempotent(ts: Seq<TaskV>, i: int)
    requires
        0 <= i < ts.len(),
    ensures
        ({
            let once = ts.update(i, spec_start(ts[i]));
            once.update(i, spec_start(once[i])) == once
        }),
{
    let once = ts.update(i, spec_start(ts[i]));
    crate::task::lemma_start_idempotent(ts[i]);
    assert(once.update(i, spec_start(once[i])) =~= once);
}

/// Under distinct ids, any position holding `id` is the position `choose`
/// picks.
pub proof fn lemma_index_of_unique(ts: Seq<TaskV>, id: u32, k: int)
    requires
        forall|i: int, j: int| 0 <= i < j < ts.len() ==> ts[i].id != ts[j].id,
        0 <= k < ts.len(),
        ts[k].id == id,
    ensures
        contains_id(ts, id),
        index_of_id(ts, id) == k,
{
    assert(contains_id(ts, id));
    let i = index_of_id(ts, id);
    assert(0 <= i < ts.len() && ts[i].id == id);
    if i < k {
        assert(ts[i].id != ts[k].id);
    } else if k < i {
        assert(ts[k].id != ts[i].id);
    }
}

} // verus!