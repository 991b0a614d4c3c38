//! The coordinator: hands tasks to workers, records their completion and sends tasks
//! that take too long back to idle.
use std::time::Duration;
use vstd::prelude::*;
use crate::ds::MapReduceStatus;
use crate::ds::task::{State, TaskType, TaskView};
use crate::ds::taskman::{
    checked_against, complete_task, first_idle, keep_timers, set_state_of, first_with_path, idle_for, lemma_first_idle, may_expire, take_idle, TaskManager,
};
use crate::worker::ReduceType;

verus! {

/// The type of task handed out for a request of type `f`: the requested type, or,
/// when none is requested, a map task if one is idle and else a reduce task.
pub open spec fn preferred_type(s: Seq<TaskView>, f: Option<TaskType>) -> Option<TaskType> {
    match f {
        Some(t) => Some(t),
        None => if first_idle(s, Some(TaskType::MapTask)) < s.len() {
            Some(TaskType::MapTask)
        } else {
            Some(TaskType::Reduce)
        },
    }
}

/// With no type requested, a reduce task is handed out only when no map task is idle,
/// and whatever is handed out was idle.
pub proof fn law_map_tasks_first(s: Seq<TaskView>, k: int)
    requires
        first_idle(s, preferred_type(s, None)) < s.len(),
        s[first_idle(s, preferred_type(s, None))].task_type == TaskType::Reduce,
        0 <= k < s.len(),
        s[k].task_type == TaskType::MapTask,
    ensures
        s[k].state != State::Idle,
        s[first_idle(s, preferred_type(s, None))].state == State::Idle,
{
    lemma_first_idle(s, Some(TaskType::MapTask));
    lemma_first_idle(s, Some(TaskType::Reduce));
    if s[k].state == State::Idle {
        assert(idle_for(s[k], Some(TaskType::MapTask)));
    }
}

/// A request for a type is answered with that type: the first task that is idle
/// and of type `t` is handed out, and nothing is handed out exactly when no task of
/// type `t` is idle.
pub proof fn law_requested_type_served(s: Seq<TaskView>, t: TaskType)
    ensures
        preferred_type(s, Some(t)) == Some(t),
        ({
            let i = first_idle(s, preferred_type(s, Some(t)));
            &&& 0 <= i <= s.len()
            &&& i < s.len() ==> s[i].state == State::Idle && s[i].task_type == t
            &&& forall|j: int| 0 <= j < i ==> !((#[trigger] s[j]).state == State::Idle && s[j].task_type == t)
            &&& i == s.len() <==> forall|j: int|
                0 <= j < s.len() ==> !((#[trigger] s[j]).state == State::Idle && s[j].task_type == t)
        }),
{
    lemma_first_idle(s, Some(t));
    let i = first_idle(s, Some(t));
    assert forall|j: int| 0 <= j < i implies !((#[trigger] s[j]).state == State::Idle && s[j].task_type == t) by {
        assert(!idle_for(s[j], Some(t)));
    }
}

/// With no type requested, something is handed out exactly when some task is idle.
pub proof fn law_any_idle_served(s: Seq<TaskView>)
    ensures
        first_idle(s, preferred_type(s, None)) < s.len() <==> exists|j: int|
            0 <= j < s.len() && (#[trigger] s[j]).state == State::Idle,
{
    lemma_first_idle(s, Some(TaskType::MapTask));
    lemma_first_idle(s, Some(TaskType::Reduce));
    if exists|j: int| 0 <= j < s.len() && (#[trigger] s[j]).state == State::Idle {
        let j = choose|j: int| 0 <= j < s.len() && (#[trigger] s[j]).state == State::Idle;
        if first_idle(s, Some(TaskType::MapTask)) == s.len() {
            if s[j].task_type == TaskType::MapTask {
                assert(!idle_for(s[j], Some(TaskType::MapTask)));
            }
        }
    }
}

/// The coordinator of a MapReduce job.
pub struct Coordinator {
    pub taskman: TaskManager,
}

impl Coordinator {
    pub fn new(taskman: TaskManager) -> (c: Coordinator)
        ensures
            c.taskman@ == taskman@,
    {
        Coordinator { taskman }
    }

    /// Sends every task that has been in progress for at least `duration` back to idle:
    /// every task is checked against its own reading of the clock.
    pub fn check_progress(&mut self, duration: Duration)
        ensures
            final(self).taskman@.len() == old(self).taskman@.len(),
            forall|j: int|
                0 <= j < old(self).taskman@.len() ==> may_expire(
                    #[trigger] old(self).taskman@[j],
                    final(self).taskman@[j],
                ),
            final(self).taskman.checks().len() == old(self).taskman@.len(),
            forall|j: int|
                0 <= j < old(self).taskman@.len() ==> checked_against(
                    #[trigger] old(self).taskman@[j],
                    final(self).taskman@[j],
                    final(self).taskman.checks()[j],
                ),
            final(self).taskman.timers() == old(self).taskman.timers(),
    {
        self.taskman.check_progress_all(duration);
    }

    /// The job is complete when no task remains.
    pub fn is_complete(&mut self) -> (b: bool)
        ensures
            final(self).taskman@ == old(self).taskman@,
            b == (old(self).taskman@.len() == 0),
    {
        self.taskman.status() == MapReduceStatus::Completed
    }

    /// Gives worker `id` a task of the requested type; with no type requested, an
    /// idle map task when there is one, else an idle reduce task. The task becomes in
    /// progress, and its paths and type are returned.
    pub fn get_task(&mut self, id: i8, task_type: Option<TaskType>) -> (r: Option<(Vec<String>, TaskType)>)
        ensures
            final(self).taskman@ == take_idle(old(self).taskman@, id, preferred_type(old(self).taskman@, task_type)),
            ({
                let s = old(self).taskman@;
                let f = preferred_type(s, task_type);
                let i = first_idle(s, f);
                match r {
                    Some((p, ty)) => i < s.len() && p.deep_view() == s[i].path && ty == s[i].task_type,
                    None => i == s.len(),
                }
            }),
            task_type matches Some(t) ==> (r matches Some((_, ty)) ==> ty == t),
            task_type matches Some(t) ==> (r is None <==> forall|j: int|
                0 <= j < old(self).taskman@.len() ==> !((#[trigger] old(self).taskman@[j]).state == State::Idle
                    && old(self).taskman@[j].task_type == t)),
            task_type is None ==> (r is None <==> forall|j: int|
                0 <= j < old(self).taskman@.len() ==> (#[trigger] old(self).taskman@[j]).state != State::Idle),
            task_type is None && r is Some && r.unwrap().1 == TaskType::Reduce ==> forall|j: int|
                0 <= j < old(self).taskman@.len() && (#[trigger] old(self).taskman@[j]).task_type == TaskType::MapTask
                    ==> old(self).taskman@[j].state != State::Idle,
            r matches Some((p, ty)) ==> exists|i: int|
                0 <= i < old(self).taskman@.len() && (#[trigger] old(self).taskman@[i]).state == State::Idle
                    && old(self).taskman@[i].task_type == ty && old(self).taskman@[i].path == p.deep_view()
                    && (forall|j: int| 0 <= j < i ==> !((#[trigger] old(self).taskman@[j]).state == State::Idle
                        && old(self).taskman@[j].task_type == ty))
                    && final(self).taskman@ == old(self).taskman@.update(
                        i,
                        TaskView { worker: Some(id), state: State::InProgress, ..old(self).taskman@[i] },
                    ),
            r is None ==> final(self).taskman@ == old(self).taskman@,
            final(self).taskman.timers().len() == old(self).taskman.timers().len(),
            forall|j: int|
                0 <= j < old(self).taskman.timers().len() && j != first_idle(
                    old(self).taskman@,
                    preferred_type(old(self).taskman@, task_type),
                ) ==> #[trigger] final(self).taskman.timers()[j] == old(self).taskman.timers()[j],
    {
        let ghost s = self.taskman@;
        let r = self.hand_out(id, task_type);
        proof {
            let f = preferred_type(s, task_type);
            let i = first_idle(s, f);
            lemma_first_idle(s, f);
            lemma_first_idle(s, Some(TaskType::MapTask));
            law_any_idle_served(s);
            if let Some(t) = task_type {
                law_requested_type_served(s, t);
            }
            if i < s.len() {
                assert forall|j: int| 0 <= j < i implies !((#[trigger] s[j]).state == State::Idle
                    && s[j].task_type == s[i].task_type) by {
                    assert(!idle_for(s[j], f));
                }
                assert(self.taskman@ =~= s.update(i, TaskView { worker: Some(id), state: State::InProgress, ..s[i] }));
            }
            if task_type is None && f == Some(TaskType::Reduce) {
                assert forall|j: int| 0 <= j < s.len() && (#[trigger] s[j]).task_type == TaskType::MapTask
                    implies s[j].state != State::Idle by {
                    if s[j].state == State::Idle {
                        assert(idle_for(s[j], Some(TaskType::MapTask)));
                    }
                }
            }
        }
        r
    }

    /// The request as `get_task` serves it, stated through the task manager's own
    /// contract.
    fn hand_out(&mut self, id: i8, task_type: Option<TaskType>) -> (r: Option<(Vec<String>, TaskType)>)
        ensures
            final(self).taskman@ == take_idle(old(self).taskman@, id, preferred_type(old(self).taskman@, task_type)),
            ({
                let s = old(self).taskman@;
                let f = preferred_type(s, task_type);
                let i = first_idle(s, f);
                match r {
                    Some((p, ty)) => i < s.len() && p.deep_view() == s[i].path && ty == s[i].task_type,
                    None => i == s.len(),
                }
            }),
            final(self).taskman.timers().len() == old(self).taskman.timers().len(),
            forall|j: int|
                0 <= j < old(self).taskman.timers().len() && j != first_idle(
                    old(self).taskman@,
                    preferred_type(old(self).taskman@, task_type),
                ) ==> #[trigger] final(self).taskman.timers()[j] == old(self).taskman.timers()[j],
    {
        match task_type {
            Some(t) => self.taskman.get_idle_task(id, Some(t)),
            None => {
                let ghost s = self.taskman@;
                proof {
                    lemma_first_idle(s, Some(TaskType::MapTask));
                    self.taskman.lemma_timers_len();
                }
                match self.taskman.get_idle_task(id, Some(TaskType::MapTask)) {
                    Some(found) => Some(found),
                    None => {
                        proof {
                            assert(self.taskman.timers() =~= old(self).taskman.timers());
                        }
                        self.taskman.get_idle_task(id, Some(TaskType::Reduce))
                    },
                }
            },
        }
    }

    /// Records that the task with path `task` is completed, as
    /// `TaskManager::task_completed` does.
    pub fn completed_task(
        &mut self,
        task: String,
        reduce_type: ReduceType,
        nreduce: usize,
        nmap: usize,
        worker_id: Option<i8>,
    )
        requires
            first_with_path(old(self).taskman@, task@) < old(self).taskman@.len(),
            old(self).taskman@[first_with_path(old(self).taskman@, task@)].task_type == TaskType::MapTask
                && reduce_type == ReduceType::Expedited ==> worker_id is Some,
        ensures
            final(self).taskman@ == complete_task(
                old(self).taskman@,
                task@,
                reduce_type,
                nreduce as nat,
                nmap as nat,
                worker_id,
            ),
            ({
                let kept = keep_timers(
                    set_state_of(old(self).taskman@, task@, State::Completed),
                    old(self).taskman.timers(),
                );
                final(self).taskman.timers().take(kept.len() as int) == kept
            }),
    {
        let _ = self.taskman.task_completed(task, reduce_type, nreduce, nmap, worker_id);
    }

    /// Gives `input` back.
    pub fn echo(&self, input: String) -> (out: String)
        ensures
            out@ == input@,
    {
        input
    }
}

} // verus!
