//! The task store: tasks, the identifier counter, and the four mutations.

use vstd::prelude::*;

verus! {

/// Informational tag on a task; it has no behavioural effect beyond display.
#[derive(Debug, Clone, Copy, PartialEq, Eq, Structural)]
pub enum Priority {
    Low,
    Medium,
    High,
}

/// One to-do item.
#[derive(Debug, Clone)]
pub struct Task {
    pub id: usize,
    pub description: String,
    pub completed: bool,
    pub priority: Priority,
    pub created_at: String,
}

/// Mathematical model of a task.
#[verifier::ext_equal]
pub ghost struct TaskV {
    pub id: int,
    pub description: Seq<char>,
    pub completed: bool,
    pub priority: Priority,
    pub created_at: Seq<char>,
}

impl View for Task {
    type V = TaskV;

    open spec fn view(&self) -> TaskV {
        TaskV {
            id: self.id as int,
            description: self.description@,
            completed: self.completed,
            priority: self.priority,
            created_at: self.created_at@,
        }
    }
}

/// The full collection of tasks plus the next-identifier counter.
#[derive(Debug)]
pub struct TodoList {
    pub tasks: Vec<Task>,
    pub next_id: usize,
}

/// Mathematical model of a store: a sequence of task models and the counter.
#[verifier::ext_equal]
pub ghost struct StoreV {
    pub tasks: Seq<TaskV>,
    pub next_id: int,
}

impl View for TodoList {
    type V = StoreV;

    open spec fn view(&self) -> StoreV {
        StoreV { tasks: self.tasks@.map_values(|t: Task| t@), next_id: self.next_id as int }
    }
}

/// Errors a store operation can surface.
#[derive(Debug, Clone, Copy, PartialEq, Eq, Structural)]
pub enum TodoError {
    /// The underlying read or write of the persisted document failed.
    Io,
    /// The persisted document does not parse into the expected structure.
    Json,
    /// No task in the store carries the requested identifier.
    TaskNotFound(usize),
}

pub open spec fn empty_store() -> StoreV {
    StoreV { tasks: Seq::empty(), next_id: 1 }
}

/// Whether some task in `tasks` carries the identifier `id`.
pub open spec fn has_id(tasks: Seq<TaskV>, id: int) -> bool {
    exists|k: int| 0 <= k < tasks.len() && tasks[k].id == id
}

/// Index of the first task carrying `id`, or -1 when there is none.
pub open spec fn first_idx(tasks: Seq<TaskV>, id: int) -> int
    decreases tasks.len(),
{
    if tasks.len() == 0 {
        -1
    } else if tasks[0].id == id {
        0
    } else {
        let r = first_idx(tasks.drop_first(), id);
        if r == -1 {
            -1
        } else {
            r + 1
        }
    }
}

/// `first_idx` finds a task exactly when `has_id` holds, it points at the
/// first match, and a miss is reported as -1.
pub proof fn lemma_first_idx(tasks: Seq<TaskV>, id: int)
    ensures
        has_id(tasks, id) <==> 0 <= first_idx(tasks, id) < tasks.len(),
        has_id(tasks, id) ==> tasks[first_idx(tasks, id)].id == id,
        has_id(tasks, id) ==> forall|k: int| 0 <= k < first_idx(tasks, id) ==> tasks[k].id != id,
        !has_id(tasks, id) ==> first_idx(tasks, id) == -1,
    decreases tasks.len(),
{
    if tasks.len() > 0 && tasks[0].id != id {
        let rest = tasks.drop_first();
        lemma_first_idx(rest, id);
        if has_id(tasks, id) {
            let w = choose|k: int| 0 <= k < tasks.len() && tasks[k].id == id;
            assert(rest[w - 1].id == id);
            assert(has_id(rest, id));
            assert(tasks[first_idx(tasks, id)].id == id) by {
                assert(rest[first_idx(rest, id)] == tasks[first_idx(rest, id) + 1]);
            }
            assert forall|k: int| 0 <= k < first_idx(tasks, id) implies tasks[k].id != id by {
                if k > 0 {
                    assert(tasks[k] == rest[k - 1]);
                }
            }
        } else {
            assert forall|k: int| 0 <= k < rest.len() implies rest[k].id != id by {
                assert(rest[k] == tasks[k + 1]);
            }
            assert(!has_id(rest, id));
        }
    }
}

/// The same task with its completion flag set.
pub open spec fn with_completed(t: TaskV) -> TaskV {
    TaskV { completed: true, ..t }
}

/// Model of `add`: append a task carrying the counter's value, bump the counter.
pub open spec fn spec_add(s: StoreV, d: Seq<char>, p: Priority, at: Seq<char>) -> StoreV {
    StoreV {
        tasks: s.tasks.push(
            TaskV { id: s.next_id, description: d, completed: false, priority: p, created_at: at },
        ),
        next_id: s.next_id + 1,
    }
}

/// Model of `complete` on a present identifier: flag the first match.
pub open spec fn spec_complete(s: StoreV, id: int) -> StoreV {
    let i = first_idx(s.tasks, id);
    StoreV { tasks: s.tasks.update(i, with_completed(s.tasks[i])), next_id: s.next_id }
}

/// Model of `delete` on a present identifier: remove the first match.
pub open spec fn spec_delete(s: StoreV, id: int) -> StoreV {
    StoreV { tasks: s.tasks.remove(first_idx(s.tasks, id)), next_id: s.next_id }
}

impl TodoList {
    pub fn new() -> (r: Self)
        ensures
            r@ =~= empty_store(),
    {
        Self { tasks: Vec::new(), next_id: 1 }
    }

    /// Index of the first task carrying `id`, if any.
    fn find_index(&self, id: usize) -> (r: Option<usize>)
        ensures
            r matches Some(i) ==> 0 <= i < self@.tasks.len() && first_idx(
                self@.tasks,
                id as int,
            ) == i as int,
            r is None ==> !has_id(self@.tasks, id as int),
    {
        proof {
            lemma_first_idx(self@.tasks, id as int);
        }
        let n = self.tasks.len();
        let mut j: usize = 0;
        while j < n
            invariant
                n == self.tasks.len(),
                j <= n,
                forall|k: int| 0 <= k < j ==> self@.tasks[k].id != id as int,
            decreases n - j,
        {
            if self.tasks[j].id == id {
                proof {
                    let ts = self@.tasks;
                    lemma_first_idx(ts, id as int);
                    assert(ts[j as int].id == id as int);
                    assert(has_id(ts, id as int));
                    let f = first_idx(ts, id as int);
                    if f < j as int {
                        assert(ts[f].id != id as int);
                    }
                    if (j as int) < f {
                        assert(ts[j as int].id != id as int);
                    }
                }
                return Some(j);
            }
            j += 1;
        }
        None
    }

    /// Append a task carrying the next identifier and the given creation
    /// stamp, then bump the counter.
    pub fn add_at(&mut self, description: String, priority: Priority, created_at: String)
        requires
            old(self).next_id < usize::MAX,
        ensures
            final(self)@ =~= spec_add(old(self)@, description@, priority, created_at@),
    {
        let id = self.next_id;
        self.tasks.push(Task { id, description, completed: false, priority, created_at });
        self.next_id = self.next_id + 1;
        proof {
            assert(self@.tasks =~= spec_add(old(self)@, description@, priority, created_at@).tasks);
        }
    }

    /// Append a task stamped with the current local time, then bump the
    /// counter. The stamp comes from the clock, so only its existence is
    /// promised.
    pub fn add(&mut self, description: String, priority: Priority)
        requires
            old(self).next_id < usize::MAX,
        ensures
            exists|at: Seq<char>| final(self)@ =~= spec_add(old(self)@, description@, priority, at),
    {
        let created_at = now_rfc3339();
        let ghost at = created_at@;
        self.add_at(description, priority, created_at);
        proof {
            assert(self@ =~= spec_add(old(self)@, description@, priority, at));
        }
    }

    /// Set the completion flag of the task carrying `id`; report
    /// `TaskNotFound` and leave the store unchanged when there is none.
    pub fn complete(&mut self, id: usize) -> (r: Result<(), TodoError>)
        ensures
            has_id(old(self)@.tasks, id as int) ==> r == Ok::<(), TodoError>(()) && final(self)@
                =~= spec_complete(old(self)@, id as int),
            !has_id(old(self)@.tasks, id as int) ==> r == Err::<(), TodoError>(
                TodoError::TaskNotFound(id),
            ) && *final(self) == *old(self),
    {
        proof {
            lemma_first_idx(old(self)@.tasks, id as int);
        }
        match self.find_index(id) {
            None => Err(TodoError::TaskNotFound(id)),
            Some(i) => {
                self.tasks[i].completed = true;
                proof {
                    assert(self@.tasks =~= spec_complete(old(self)@, id as int).tasks);
                }
                Ok(())
            },
        }
    }

    /// Remove the task carrying `id`, keeping the order of the rest; report
    /// `TaskNotFound` and leave the store unchanged when there is none.
    pub fn delete(&mut self, id: usize) -> (r: Result<(), TodoError>)
        ensures
            has_id(old(self)@.tasks, id as int) ==> r == Ok::<(), TodoError>(()) && final(self)@
                =~= spec_delete(old(self)@, id as int),
            !has_id(old(self)@.tasks, id as int) ==> r == Err::<(), TodoError>(
                TodoError::TaskNotFound(id),
            ) && *final(self) == *old(self),
    {
        proof {
            lemma_first_idx(old(self)@.tasks, id as int);
        }
        match self.find_index(id) {
            None => Err(TodoError::TaskNotFound(id)),
            Some(i) => {
                self.tasks.remove(i);
                proof {
                    assert(self@.tasks =~= spec_delete(old(self)@, id as int).tasks);
                }
                Ok(())
            },
        }
    }

    /// Drop every task and reset the counter to 1.
    pub fn clear(&mut self)
        ensures
            final(self)@ =~= empty_store(),
    {
        self.tasks.clear();
        self.next_id = 1;
    }
}

/// Well-formed store: identifiers are positive and distinct, and the counter
/// exceeds every identifier in the store.
pub open spec fn wf(s: StoreV) -> bool {
    &&& 1 <= s.next_id
    &&& forall|k: int| 0 <= k < s.tasks.len() ==> 1 <= #[trigger] s.tasks[k].id < s.next_id
    &&& forall|k: int, l: int|
        0 <= k < l < s.tasks.len() ==> #[trigger] s.tasks[k].id != #[trigger] s.tasks[l].id
}

/// `add` assigns the counter's value to the appended task. That identifier is
/// fresh: no task in the store carries it, and since the counter only ever
/// moves up (deletions included), no earlier task ever carried it either.
pub proof fn lemma_add_assigns_fresh_id(s: StoreV, d: Seq<char>, p: Priority, at: Seq<char>)
    requires
        wf(s),
    ensures
        !has_id(s.tasks, s.next_id),
        spec_add(s, d, p, at).tasks.len() == s.tasks.len() + 1,
        spec_add(s, d, p, at).tasks.last().id == s.next_id,
        spec_add(s, d, p, at).next_id == s.next_id + 1,
        forall|k: int| 0 <= k < s.tasks.len() ==> spec_add(s, d, p, at).tasks[k] == s.tasks[k],
        wf(spec_add(s, d, p, at)),
{
}

/// `complete` on a present identifier flags exactly the first task carrying
/// it and changes nothing else; the store stays well-formed.
pub proof fn lemma_complete_first_match(s: StoreV, id: int)
    requires
        has_id(s.tasks, id),
    ensures
        0 <= first_idx(s.tasks, id) < s.tasks.len(),
        spec_complete(s, id).tasks.len() == s.tasks.len(),
        spec_complete(s, id).tasks[first_idx(s.tasks, id)] == with_completed(
            s.tasks[first_idx(s.tasks, id)],
        ),
        forall|k: int|
            0 <= k < s.tasks.len() && k != first_idx(s.tasks, id) ==> spec_complete(
                s,
                id,
            ).tasks[k] == s.tasks[k],
        spec_complete(s, id).next_id == s.next_id,
        wf(s) ==> wf(spec_complete(s, id)),
{
    lemma_first_idx(s.tasks, id);
}

/// Completing an identifier twice is the same as completing it once: the
/// second call finds the same task, already flagged, and changes nothing.
pub proof fn lemma_complete_idempotent(s: StoreV, id: int)
    requires
        has_id(s.tasks, id),
    ensures
        has_id(spec_complete(s, id).tasks, id),
        spec_complete(spec_complete(s, id), id) =~~= spec_complete(s, id),
{
    lemma_first_idx(s.tasks, id);
    let i = first_idx(s.tasks, id);
    let t1 = spec_complete(s, id).tasks;
    assert(t1[i].id == id);
    assert(has_id(t1, id));
    lemma_first_idx(t1, id);
    let f = first_idx(t1, id);
    if f < i {
        assert(s.tasks[f].id != id);
        assert(t1[f] == s.tasks[f]);
    }
    assert(f == i);
    assert(with_completed(with_completed(s.tasks[i])) == with_completed(s.tasks[i]));
    assert(spec_complete(spec_complete(s, id), id).tasks =~= t1);
}

/// `delete` on a present identifier removes exactly the first task carrying
/// it and keeps every other task, in order. In a well-formed store the
/// identifier is gone afterwards and the store stays well-formed.
pub proof fn lemma_delete_removes_exactly_one(s: StoreV, id: int)
    requires
        has_id(s.tasks, id),
    ensures
        0 <= first_idx(s.tasks, id) < s.tasks.len(),
        spec_delete(s, id).tasks.len() == s.tasks.len() - 1,
        forall|k: int|
            0 <= k < first_idx(s.tasks, id) ==> #[trigger] spec_delete(s, id).tasks[k]
                == s.tasks[k],
        forall|k: int|
            first_idx(s.tasks, id) <= k < s.tasks.len() - 1 ==> #[trigger] spec_delete(
                s,
                id,
            ).tasks[k] == s.tasks[k + 1],
        spec_delete(s, id).next_id == s.next_id,
        wf(s) ==> !has_id(spec_delete(s, id).tasks, id),
        wf(s) ==> wf(spec_delete(s, id)),
{
    lemma_first_idx(s.tasks, id);
    let i = first_idx(s.tasks, id);
    let t1 = spec_delete(s, id).tasks;
    if wf(s) {
        assert forall|k: int| 0 <= k < t1.len() implies #[trigger] t1[k].id != id by {
            if k < i {
                assert(t1[k] == s.tasks[k]);
            } else {
                assert(t1[k] == s.tasks[k + 1]);
            }
        }
    }
}

/// Relies on chrono::Local::now and chrono::DateTime::to_rfc3339: the current
/// local time rendered as an RFC 3339 string. The clock decides the value, so
/// nothing is promised of it.
#[verifier::external_body]
fn now_rfc3339() -> String {
    chrono::Local::now().to_rfc3339()
}

} // verus!

