//! The queue from which a requestor draws its tasks.

use vstd::prelude::*;
use std::collections::VecDeque;
use crate::id::{advance, IdSource};
use crate::task::{Task, TaskView};

verus! {

/// What a task queue holds.
pub struct TaskQueueView {
    /// The tasks, the next one to leave first.
    pub tasks: Seq<TaskView>,
    /// Whether a task that leaves is followed by a copy of itself at the back.
    pub repeating: bool,
}

impl TaskQueueView {
    pub open spec fn wf(self) -> bool {
        forall|i: int| 0 <= i < self.tasks.len() ==> (#[trigger] self.tasks[i]).wf()
    }

    /// The queue with `task` at the back.
    pub open spec fn pushed(self, task: TaskView) -> TaskQueueView {
        TaskQueueView { tasks: self.tasks.push(task), ..self }
    }

    /// The queue with `tasks` at the back, in their order.
    pub open spec fn appended(self, tasks: Seq<TaskView>) -> TaskQueueView {
        TaskQueueView { tasks: self.tasks + tasks, ..self }
    }

    /// The queue after its first task has left, where the identifier counter
    /// stood at `first`. A repeating queue gets a copy of the task at the back,
    /// under fresh identifiers.
    pub open spec fn popped(self, first: usize) -> TaskQueueView {
        if self.tasks.len() == 0 {
            self
        } else if self.repeating {
            TaskQueueView {
                tasks: self.tasks.subrange(1, self.tasks.len() as int).push(
                    self.tasks[0].replica(first),
                ),
                ..self
            }
        } else {
            TaskQueueView { tasks: self.tasks.subrange(1, self.tasks.len() as int), ..self }
        }
    }

    /// Where the identifier counter stands after a task has left.
    pub open spec fn counter_after_pop(self, first: usize) -> usize {
        if self.tasks.len() > 0 && self.repeating {
            advance(first, self.tasks[0].ids_needed())
        } else {
            first
        }
    }
}

/// An ordered sequence of tasks, repeating or not.
#[derive(Debug)]
pub struct TaskQueue {
    buffer: VecDeque<Task>,
    pub repeating: bool,
}

impl View for TaskQueue {
    type V = TaskQueueView;

    closed spec fn view(&self) -> TaskQueueView {
        TaskQueueView {
            tasks: self.buffer@.map_values(|t: Task| t@),
            repeating: self.repeating,
        }
    }
}

impl TaskQueue {
    pub open spec fn wf(&self) -> bool {
        self@.wf()
    }

    /// An empty, repeating queue.
    pub fn new() -> (r: TaskQueue)
        ensures
            r.wf(),
            r@.tasks.len() == 0,
            r@.repeating,
    {
        TaskQueue { buffer: VecDeque::new(), repeating: true }
    }

    /// Whether a task that leaves is followed by a copy of itself.
    pub fn is_repeating(&self) -> (r: bool)
        ensures
            r == self@.repeating,
    {
        self.repeating
    }

    /// Makes the queue repeating or not.
    pub fn set_repeating(&mut self, repeating: bool)
        ensures
            final(self)@ == (TaskQueueView { repeating, ..old(self)@ }),
    {
        self.repeating = repeating;
    }

    pub fn len(&self) -> (r: usize)
        ensures
            r == self@.tasks.len(),
    {
        self.buffer.len()
    }

    pub fn is_empty(&self) -> (r: bool)
        ensures
            r == (self@.tasks.len() == 0),
    {
        self.buffer.len() == 0
    }

    /// Puts `task` at the back.
    pub fn push(&mut self, task: Task)
        requires
            old(self).wf(),
            task.wf(),
        ensures
            final(self).wf(),
            final(self)@ == old(self)@.pushed(task@),
    {
        self.buffer.push_back(task);
        assert(self@.tasks =~= old(self)@.pushed(task@).tasks);
    }

    /// Takes the first task out. A repeating queue keeps a copy of it, under
    /// fresh identifiers, at the back.
    pub fn pop(&mut self, ids: &mut IdSource) -> (r: Option<Task>)
        requires
            old(self).wf(),
        ensures
            final(self).wf(),
            final(self)@ == old(self)@.popped(old(ids).upcoming()),
            final(ids).upcoming() == old(self)@.counter_after_pop(old(ids).upcoming()),
            match r {
                Some(task) => old(self)@.tasks.len() > 0 && task@ == old(self)@.tasks[0]
                    && task.wf(),
                None => old(self)@.tasks.len() == 0,
            },
    {
        let ghost before = self.buffer@;
        match self.buffer.pop_front() {
            None => None,
            Some(task) => {
                assert(task@ == old(self)@.tasks[0]);
                if self.repeating {
                    let copy = task.replicate(ids);
                    self.buffer.push_back(copy);
                }
                assert(self@.tasks =~= old(self)@.popped(old(ids).upcoming()).tasks);
                assert forall|i: int| 0 <= i < self@.tasks.len() implies (
                #[trigger] self@.tasks[i]).wf() by {
                    if i < before.len() - 1 {
                        assert(self@.tasks[i] == old(self)@.tasks[i + 1]);
                    }
                }
                Some(task)
            },
        }
    }

    /// Puts `tasks` at the back, in their order.
    pub fn append(&mut self, tasks: Vec<Task>)
        requires
            old(self).wf(),
            forall|i: int| 0 <= i < tasks@.len() ==> (#[trigger] tasks@[i]).wf(),
        ensures
            final(self).wf(),
            final(self)@ == old(self)@.appended(tasks@.map_values(|t: Task| t@)),
    {
        let ghost all = tasks@;
        let mut rest = tasks;
        assert forall|i: int| 0 <= i < self.buffer@.len() implies (#[trigger] self.buffer@[i])@.wf() by {
            assert(self@.tasks[i].wf());
        }
        while rest.len() > 0
            invariant
                forall|i: int| 0 <= i < self.buffer@.len() ==> (#[trigger] self.buffer@[i])@.wf(),
                self.repeating == old(self).repeating,
                rest@.len() <= all.len(),
                rest@ =~= all.subrange(all.len() - rest@.len(), all.len() as int),
                forall|i: int| 0 <= i < all.len() ==> (#[trigger] all[i]).wf(),
                self.buffer@ =~= old(self).buffer@ + all.subrange(0, all.len() - rest@.len()),
            decreases rest@.len(),
        {
            let ghost k = all.len() - rest@.len();
            let task = rest.remove(0);
            assert(task == all[k]);
            self.buffer.push_back(task);
        }
        assert(all.subrange(0, all.len() as int) =~= all);
        assert(self@.tasks =~= old(self)@.appended(all.map_values(|t: Task| t@)).tasks);
    }
}

impl Default for TaskQueue {
    /// An empty, repeating queue.
    fn default() -> (r: TaskQueue)
        ensures
            r.wf(),
            r@.tasks.len() == 0,
            r@.repeating,
    {
        TaskQueue::new()
    }
}

} // verus!
