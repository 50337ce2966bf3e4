//! Tasks and the subtasks that they are made of.

use vstd::prelude::*;
use std::collections::VecDeque;
use crate::fixed::Fixed;
use crate::id::{advance, following, Id, IdSource};

verus! {

/// What a requestor knows of a subtask after a verification result.
#[derive(Clone, Copy, Debug, PartialEq, Eq, Structural)]
pub enum Status {
    /// More results must arrive before the subtask is settled.
    Pending,
    /// No provider delivered within the budget; the subtask must be sent out again.
    Cancelled,
    /// The subtask has been computed.
    Done,
}

/// An indivisible unit of work.
#[derive(Clone, Copy, Debug, PartialEq, Eq, Structural)]
pub struct SubTask {
    pub id: Id,
    /// Estimated usage at unit efficiency.
    pub nominal_usage: Fixed,
    /// The most that the requestor pays for it.
    pub budget: Fixed,
}

impl SubTask {
    /// A subtask under a fresh identifier.
    pub fn new(ids: &mut IdSource, nominal_usage: Fixed, budget: Fixed) -> (r: SubTask)
        ensures
            r == (SubTask { id: Id { value: old(ids).upcoming() }, nominal_usage, budget }),
            final(ids).upcoming() == following(old(ids).upcoming()),
    {
        SubTask { id: Id::new(ids), nominal_usage, budget }
    }

    pub fn with_id(id: Id, nominal_usage: Fixed, budget: Fixed) -> (r: SubTask)
        ensures
            r == (SubTask { id, nominal_usage, budget }),
    {
        SubTask { id, nominal_usage, budget }
    }

    pub fn id(&self) -> (r: &Id)
        ensures
            *r == self.id,
    {
        &self.id
    }

    /// The same work under the identifier `id`.
    pub open spec fn renamed(self, id: Id) -> SubTask {
        SubTask { id, nominal_usage: self.nominal_usage, budget: self.budget }
    }
}

/// The subtasks of `template` under consecutive identifiers starting at `first`.
pub open spec fn reissued(template: Seq<SubTask>, first: usize) -> Seq<SubTask> {
    Seq::new(
        template.len(),
        |k: int| template[k].renamed(Id { value: advance(first, k as nat) }),
    )
}

/// What a task holds.
pub struct TaskView {
    pub id: Id,
    /// How many subtasks the task was made of.
    pub size: nat,
    /// Subtasks sent out and not yet settled.
    pub in_flight: nat,
    /// Subtasks waiting to be sent out, in the order in which they will be.
    pub pending: Seq<SubTask>,
    /// Subtasks computed, in the order in which they were.
    pub done: Seq<SubTask>,
}

impl TaskView {
    /// No subtask is lost or made up: every subtask of the task is waiting,
    /// sent out or computed.
    pub open spec fn wf(self) -> bool {
        self.pending.len() + self.done.len() + self.in_flight == self.size
    }

    pub open spec fn is_pending(self) -> bool {
        self.pending.len() > 0
    }

    pub open spec fn is_done(self) -> bool {
        self.done.len() == self.size
    }

    /// A copy of the task under fresh identifiers, the first of which is `first`.
    pub open spec fn replica(self, first: usize) -> TaskView {
        TaskView {
            id: Id { value: first },
            size: self.size,
            in_flight: self.in_flight,
            pending: reissued(self.pending, advance(first, 1)),
            done: reissued(self.done, advance(first, 1 + self.pending.len())),
        }
    }

    /// How many identifiers a copy of the task takes.
    pub open spec fn ids_needed(self) -> nat {
        1 + self.pending.len() + self.done.len()
    }
}

/// No subtask is lost or made up on its way through a task: a subtask that
/// leaves the waiting ones is in flight, one that is computed or cancelled
/// is in flight no longer, and the task stays as large as it was.
pub proof fn lemma_subtasks_conserved(task: TaskView, subtask: SubTask)
    requires
        task.wf(),
    ensures
        task.pending.len() > 0 ==> (TaskView {
            in_flight: task.in_flight + 1,
            pending: task.pending.subrange(1, task.pending.len() as int),
            ..task
        }).wf(),
        task.in_flight > 0 ==> (TaskView {
            in_flight: (task.in_flight - 1) as nat,
            done: task.done.push(subtask),
            ..task
        }).wf(),
        task.in_flight > 0 ==> (TaskView {
            in_flight: (task.in_flight - 1) as nat,
            pending: task.pending.push(subtask),
            ..task
        }).wf(),
        task.is_done() ==> task.pending.len() == 0 && task.in_flight == 0,
{
}

/// `advance` by a sum is `advance` by its parts.
pub proof fn lemma_advance_sum(v: usize, a: nat, b: nat)
    ensures
        advance(advance(v, a), b) == advance(v, a + b),
    decreases b,
{
    if b > 0 {
        lemma_advance_sum(v, a, (b - 1) as nat);
    }
}

/// A task: a set of subtasks that a requestor wants computed.
#[derive(Clone, Debug)]
pub struct Task {
    id: Id,
    size: usize,
    in_flight: usize,
    pending: VecDeque<SubTask>,
    done: VecDeque<SubTask>,
}

impl View for Task {
    type V = TaskView;

    closed spec fn view(&self) -> TaskView {
        TaskView {
            id: self.id,
            size: self.size as nat,
            in_flight: self.in_flight as nat,
            pending: self.pending@,
            done: self.done@,
        }
    }
}

impl Task {
    pub open spec fn wf(&self) -> bool {
        self@.wf()
    }

    /// An empty task under a fresh identifier.
    pub fn new(ids: &mut IdSource) -> (r: Task)
        ensures
            r.wf(),
            r@ == (TaskView {
                id: Id { value: old(ids).upcoming() },
                size: 0,
                in_flight: 0,
                pending: Seq::empty(),
                done: Seq::empty(),
            }),
            final(ids).upcoming() == following(old(ids).upcoming()),
    {
        Self::with_id(Id::new(ids))
    }

    /// An empty task under the identifier `id`.
    pub fn with_id(id: Id) -> (r: Task)
        ensures
            r.wf(),
            r@ == (TaskView {
                id,
                size: 0,
                in_flight: 0,
                pending: Seq::empty(),
                done: Seq::empty(),
            }),
    {
        Task { id, size: 0, in_flight: 0, pending: VecDeque::new(), done: VecDeque::new() }
    }

    pub fn id(&self) -> (r: Id)
        ensures
            r == self@.id,
    {
        self.id
    }

    pub fn size(&self) -> (r: usize)
        ensures
            r == self@.size,
    {
        self.size
    }

    pub fn in_flight(&self) -> (r: usize)
        ensures
            r == self@.in_flight,
    {
        self.in_flight
    }

    pub fn pending_len(&self) -> (r: usize)
        ensures
            r == self@.pending.len(),
    {
        self.pending.len()
    }

    pub fn done_len(&self) -> (r: usize)
        ensures
            r == self@.done.len(),
    {
        self.done.len()
    }

    /// Makes the task one subtask larger; the subtask waits behind the others.
    pub fn push_pending(&mut self, subtask: SubTask)
        requires
            old(self).wf(),
            old(self)@.size < usize::MAX,
        ensures
            final(self).wf(),
            final(self)@ == (TaskView {
                size: old(self)@.size + 1,
                pending: old(self)@.pending.push(subtask),
                ..old(self)@
            }),
    {
        self.size = self.size + 1;
        self.pending.push_back(subtask);
    }

    /// Takes out the subtask that waited longest; it is then in flight.
    pub fn pop_pending(&mut self) -> (r: Option<SubTask>)
        requires
            old(self).wf(),
        ensures
            final(self).wf(),
            match r {
                Some(subtask) => {
                    &&& old(self)@.pending.len() > 0
                    &&& subtask == old(self)@.pending[0]
                    &&& final(self)@ == (TaskView {
                        in_flight: old(self)@.in_flight + 1,
                        pending: old(self)@.pending.subrange(
                            1,
                            old(self)@.pending.len() as int,
                        ),
                        ..old(self)@
                    })
                },
                None => old(self)@.pending.len() == 0 && final(self)@ == old(self)@,
            },
    {
        let r = self.pending.pop_front();
        if r.is_some() {
            self.in_flight = self.in_flight + 1;
        }
        r
    }

    /// Records a subtask in flight as computed.
    pub fn push_done(&mut self, subtask: SubTask)
        requires
            old(self).wf(),
            old(self)@.in_flight > 0,
        ensures
            final(self).wf(),
            final(self)@ == (TaskView {
                in_flight: (old(self)@.in_flight - 1) as nat,
                done: old(self)@.done.push(subtask),
                ..old(self)@
            }),
    {
        self.in_flight = self.in_flight - 1;
        self.done.push_back(subtask);
    }

    /// Puts a subtask in flight back behind those that wait; the task keeps its size.
    pub fn requeue(&mut self, subtask: SubTask)
        requires
            old(self).wf(),
            old(self)@.in_flight > 0,
        ensures
            final(self).wf(),
            final(self)@ == (TaskView {
                in_flight: (old(self)@.in_flight - 1) as nat,
                pending: old(self)@.pending.push(subtask),
                ..old(self)@
            }),
    {
        self.in_flight = self.in_flight - 1;
        self.pending.push_back(subtask);
    }

    /// Whether a subtask waits to be sent out.
    pub fn is_pending(&self) -> (r: bool)
        ensures
            r == self@.is_pending(),
    {
        self.pending.len() > 0
    }

    /// Whether every subtask has been computed.
    pub fn is_done(&self) -> (r: bool)
        ensures
            r == self@.is_done(),
    {
        self.done.len() == self.size
    }

    /// A copy of the task under fresh identifiers: one for the task, then one
    /// for each waiting subtask, then one for each computed subtask.
    pub fn replicate(&self, ids: &mut IdSource) -> (r: Task)
        requires
            self.wf(),
        ensures
            r.wf(),
            r@ == self@.replica(old(ids).upcoming()),
            final(ids).upcoming() == advance(old(ids).upcoming(), self@.ids_needed()),
    {
        let ghost first = ids.upcoming();
        let id = Id::new(ids);
        let mut pending: VecDeque<SubTask> = VecDeque::new();
        let n: usize = self.pending.len();
        let mut i: usize = 0;
        assert(advance(first, 1) == following(advance(first, 0)));
        while i < n
            invariant
                n == self.pending@.len(),
                0 <= i <= n,
                pending@.len() == i,
                ids.upcoming() == advance(first, (1 + i) as nat),
                forall|k: int|
                    0 <= k < i ==> pending@[k] == self.pending@[k].renamed(
                        Id { value: advance(advance(first, 1), k as nat) },
                    ),
            decreases n - i,
        {
            let template = self.pending[i];
            proof {
                lemma_advance_sum(first, 1, i as nat);
            }
            let copy = SubTask::with_id(Id::new(ids), template.nominal_usage, template.budget);
            pending.push_back(copy);
            i = i + 1;
        }
        let mut done: VecDeque<SubTask> = VecDeque::new();
        let m: usize = self.done.len();
        let mut j: usize = 0;
        while j < m
            invariant
                m == self.done@.len(),
                n == self.pending@.len(),
                0 <= j <= m,
                done@.len() == j,
                ids.upcoming() == advance(first, (1 + n + j) as nat),
                forall|k: int|
                    0 <= k < j ==> done@[k] == self.done@[k].renamed(
                        Id { value: advance(advance(first, (1 + n) as nat), k as nat) },
                    ),
            decreases m - j,
        {
            let template = self.done[j];
            proof {
                lemma_advance_sum(first, (1 + n) as nat, j as nat);
            }
            let copy = SubTask::with_id(Id::new(ids), template.nominal_usage, template.budget);
            done.push_back(copy);
            j = j + 1;
        }
        let r = Task { id, size: self.size, in_flight: self.in_flight, pending, done };
        assert(r@.pending =~= self@.replica(first).pending);
        assert(r@.done =~= self@.replica(first).done);
        r
    }
}

impl PartialEq for Task {
    /// Tasks are the same task when they carry the same identifier.
    fn eq(&self, other: &Self) -> (r: bool) {
        self.id == other.id
    }
}

impl vstd::std_specs::cmp::PartialEqSpecImpl for Task {
    open spec fn obeys_eq_spec() -> bool {
        true
    }

    open spec fn eq_spec(&self, other: &Self) -> bool {
        self@.id == other@.id
    }
}

} // verus!
