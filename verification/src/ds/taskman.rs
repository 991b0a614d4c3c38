//! The coordinator's list of tasks, with the operations that hand tasks out, mark them
//! done and schedule the reduce phase.
use std::time::{Duration, Instant};
use vstd::prelude::*;
use crate::ds::MapReduceStatus;
use crate::ds::task::{law_has_path_is_exact, State, Task, TaskType, TaskView};
use crate::names::{decimal, decimal_string, file_name, file_name_string, signed_decimal, signed_decimal_string};
use crate::worker::ReduceType;

verus! {

/// `std::time::Instant`, a reading of the monotonic clock.
#[verifier::external_type_specification]
#[verifier::external_body]
pub struct ExInstant(Instant);

/// Calls `std::time::Instant::now`. The reading depends on the clock, so nothing is
/// claimed of it.
#[verifier::external_body]
fn instant_now() -> Instant {
    Instant::now()
}

/// Calls `std::time::Instant::elapsed`. The span depends on the clock, so nothing is
/// claimed of it.
#[verifier::external_body]
fn elapsed_since(started: &Instant) -> Duration {
    started.elapsed()
}

/// Calls `std::time::Duration::as_nanos`. A `Duration` is opaque here, so the result
/// is not tied to it by any clause.
#[verifier::external_body]
fn duration_nanos(d: Duration) -> u128 {
    d.as_nanos()
}

/// A task that has been given `elapsed` nanoseconds of a budget of `limit`: an
/// in-progress task that used up its budget goes back to idle.
pub open spec fn overdue_step(t: TaskView, elapsed: int, limit: int) -> TaskView {
    if t.state == State::InProgress && elapsed >= limit {
        t.with_state(State::Idle)
    } else {
        t
    }
}

/// `after` is what the progress rule makes of `before` with the elapsed time and
/// the limit that `check` records; false when no check is recorded.
pub open spec fn checked_against(before: TaskView, after: TaskView, check: Option<(u128, u128)>) -> bool {
    match check {
        Some((elapsed, limit)) => after == overdue_step(before, elapsed as int, limit as int),
        None => false,
    }
}

/// `after` is `before`, or `before` was in progress and `after` is the same task idle.
pub open spec fn may_expire(before: TaskView, after: TaskView) -> bool {
    after == before || (before.state == State::InProgress && after == before.with_state(
        State::Idle,
    ))
}

/// A TimedTask is a Task with an associated Instant, which represents when the Task
/// was started, and the readings of its last progress check: the nanoseconds that had
/// elapsed and the limit they were compared with.
#[derive(Debug)]
pub struct TimedTask {
    task: Task,
    started: Instant,
    last_check: Option<(u128, u128)>,
}

impl View for TimedTask {
    type V = TaskView;

    closed spec fn view(&self) -> TaskView {
        self.task@
    }
}

impl Clone for TimedTask {
    fn clone(&self) -> (res: Self)
        ensures
            res@ == self@,
            res.started_at() == self.started_at(),
            res.last_check() == self.last_check(),
    {
        TimedTask { task: self.task.clone(), started: self.started, last_check: self.last_check }
    }
}

impl TimedTask {
    /// When the task's clock was last started.
    pub closed spec fn started_at(&self) -> Instant {
        self.started
    }

    /// The elapsed nanoseconds and the limit of the last progress check; `None`
    /// before the first.
    pub closed spec fn last_check(&self) -> Option<(u128, u128)> {
        self.last_check
    }

    /// Starts the clock of a task.
    pub fn new(task: Task) -> (t: TimedTask)
        ensures
            t@ == task@,
            t.last_check() is None,
    {
        TimedTask { task, started: instant_now(), last_check: None }
    }

    /// Sends the task back to idle if it is in progress and `elapsed` reaches `limit`.
    pub fn expire_if_overdue(&mut self, elapsed: u128, limit: u128)
        ensures
            final(self)@ == overdue_step(old(self)@, elapsed as int, limit as int),
            final(self).started_at() == old(self).started_at(),
            final(self).last_check() == old(self).last_check(),
    {
        if self.task.get_state() == State::InProgress && elapsed >= limit {
            self.task.set_state(State::Idle);
        }
    }

    /// Checks the progress of a TimedTask and changes the state of the task to
    /// State::Idle if it is taking "too long" for the task to complete.
    pub fn check_progress(&mut self, duration: Duration)
        ensures
            may_expire(old(self)@, final(self)@),
            checked_against(old(self)@, final(self)@, final(self).last_check()),
            final(self).started_at() == old(self).started_at(),
    {
        let limit = duration_nanos(duration);
        let elapsed = duration_nanos(elapsed_since(&self.started));
        self.expire_if_overdue(elapsed, limit);
        self.last_check = Some((elapsed, limit));
    }

    /// Restarts the clock.
    pub fn reset_timer(&mut self)
        ensures
            final(self)@ == old(self)@,
    {
        self.started = instant_now();
    }
}


/// `t` is idle and of the requested type (any type when `f` is `None`).
pub open spec fn idle_for(t: TaskView, f: Option<TaskType>) -> bool {
    t.state == State::Idle && (f matches Some(ty) ==> t.task_type == ty)
}

/// The index of the first task that is idle for `f`; the length when there is none.
pub open spec fn first_idle(s: Seq<TaskView>, f: Option<TaskType>) -> int
    decreases s.len(),
{
    if s.len() == 0 {
        0
    } else if idle_for(s[0], f) {
        0
    } else {
        1 + first_idle(s.drop_first(), f)
    }
}

/// The index of the first task one of whose paths is `p`; the length when there is none.
pub open spec fn first_with_path(s: Seq<TaskView>, p: Seq<char>) -> int
    decreases s.len(),
{
    if s.len() == 0 {
        0
    } else if s[0].has_path(p) {
        0
    } else {
        1 + first_with_path(s.drop_first(), p)
    }
}

/// The number of tasks of type `ty`.
pub open spec fn count_type(s: Seq<TaskView>, ty: TaskType) -> nat
    decreases s.len(),
{
    if s.len() == 0 {
        0
    } else {
        count_type(s.drop_last(), ty) + if s.last().task_type == ty { 1nat } else { 0nat }
    }
}

/// The tasks that are not completed, in their order.
pub open spec fn without_completed(s: Seq<TaskView>) -> Seq<TaskView>
    decreases s.len(),
{
    if s.len() == 0 {
        s
    } else if s.last().state == State::Completed {
        without_completed(s.drop_last())
    } else {
        without_completed(s.drop_last()).push(s.last())
    }
}

/// The tasks none of whose paths is `p`, in their order.
pub open spec fn without_path(s: Seq<TaskView>, p: Seq<char>) -> Seq<TaskView>
    decreases s.len(),
{
    if s.len() == 0 {
        s
    } else if s.last().has_path(p) {
        without_path(s.drop_last(), p)
    } else {
        without_path(s.drop_last(), p).push(s.last())
    }
}

/// The task list after the first task idle for `f` is given to worker `id`.
pub open spec fn take_idle(s: Seq<TaskView>, id: i8, f: Option<TaskType>) -> Seq<TaskView> {
    let i = first_idle(s, f);
    if i < s.len() {
        s.update(i, s[i].with_worker(id).with_state(State::InProgress))
    } else {
        s
    }
}

/// The task list after the first task with path `p` is put in state `st`.
pub open spec fn set_state_of(s: Seq<TaskView>, p: Seq<char>, st: State) -> Seq<TaskView> {
    let i = first_with_path(s, p);
    if i < s.len() {
        s.update(i, s[i].with_state(st))
    } else {
        s
    }
}

/// The reduce tasks that an expedited map completion by worker `id` schedules: for
/// each reduce number `j`, one task reading `mr-<id>-<j>`, given to `id`.
pub open spec fn expedited_reduce_tasks(id: i8, nreduce: nat) -> Seq<TaskView> {
    Seq::new(
        nreduce,
        |j: int|
            TaskView {
                path: seq![file_name(signed_decimal(id as int), decimal(j as nat))],
                worker: Some(id),
                state: State::Idle,
                task_type: TaskType::Reduce,
            },
    )
}

/// The intermediate files that reduce task `j` reads: `mr-<i>-<j>` for each map task `i`.
pub open spec fn reduce_inputs(nmap: nat, j: nat) -> Seq<Seq<char>> {
    Seq::new(nmap, |i: int| file_name(decimal(i as nat), decimal(j)))
}

/// The reduce tasks that the traditional schedule adds once no map task remains.
pub open spec fn traditional_reduce_tasks(nmap: nat, nreduce: nat) -> Seq<TaskView> {
    Seq::new(
        nreduce,
        |j: int|
            TaskView {
                path: reduce_inputs(nmap, j as nat),
                worker: None,
                state: State::Idle,
                task_type: TaskType::Reduce,
            },
    )
}

/// The task list after the task with path `p` is reported completed: the task is
/// marked completed, every completed task is dropped, and when it was a map task,
/// reduce tasks are scheduled as `rt` says.
pub open spec fn complete_task(
    s: Seq<TaskView>,
    p: Seq<char>,
    rt: ReduceType,
    nreduce: nat,
    nmap: nat,
    id: Option<i8>,
) -> Seq<TaskView> {
    let i = first_with_path(s, p);
    let rest = without_completed(set_state_of(s, p, State::Completed));
    if s[i].task_type == TaskType::Reduce {
        rest
    } else {
        match rt {
            ReduceType::Expedited => rest + expedited_reduce_tasks(id.unwrap(), nreduce),
            ReduceType::Traditional => if count_type(rest, TaskType::MapTask) == 0 {
                rest + traditional_reduce_tasks(nmap, nreduce)
            } else {
                rest
            },
        }
    }
}

/// What `first_idle` is: the first index whose task is idle for `f`.
pub proof fn lemma_first_idle(s: Seq<TaskView>, f: Option<TaskType>)
    ensures
        0 <= first_idle(s, f) <= s.len(),
        first_idle(s, f) < s.len() ==> idle_for(s[first_idle(s, f)], f),
        forall|j: int| 0 <= j < first_idle(s, f) ==> !idle_for(#[trigger] s[j], f),
    decreases s.len(),
{
    if s.len() > 0 && !idle_for(s[0], f) {
        lemma_first_idle(s.drop_first(), f);
        assert forall|j: int| 0 <= j < first_idle(s, f) implies !idle_for(#[trigger] s[j], f) by {
            if j > 0 {
                assert(s[j] == s.drop_first()[j - 1]);
            }
        }
    }
}

/// What `first_with_path` is: the first index whose task has path `p`.
pub proof fn lemma_first_with_path(s: Seq<TaskView>, p: Seq<char>)
    ensures
        0 <= first_with_path(s, p) <= s.len(),
        first_with_path(s, p) < s.len() ==> s[first_with_path(s, p)].has_path(p),
        forall|j: int| 0 <= j < first_with_path(s, p) ==> !(#[trigger] s[j]).has_path(p),
    decreases s.len(),
{
    if s.len() > 0 && !s[0].has_path(p) {
        lemma_first_with_path(s.drop_first(), p);
        assert forall|j: int| 0 <= j < first_with_path(s, p) implies !(#[trigger] s[j]).has_path(p) by {
            if j > 0 {
                assert(s[j] == s.drop_first()[j - 1]);
            }
        }
    }
}

/// `count_type` of a concatenation.
pub proof fn lemma_count_type_append(a: Seq<TaskView>, b: Seq<TaskView>, ty: TaskType)
    ensures
        count_type(a + b, ty) == count_type(a, ty) + count_type(b, ty),
    decreases b.len(),
{
    if b.len() == 0 {
        assert(a + b =~= a);
    } else {
        lemma_count_type_append(a, b.drop_last(), ty);
        assert((a + b).drop_last() =~= a + b.drop_last());
    }
}

/// No task left by `without_completed` is completed, and it keeps every other task.
pub proof fn lemma_without_completed(s: Seq<TaskView>)
    ensures
        forall|i: int| 0 <= i < without_completed(s).len() ==>
            (#[trigger] without_completed(s)[i]).state != State::Completed,
        without_completed(s).len() <= s.len(),
        (forall|i: int| 0 <= i < s.len() ==> (#[trigger] s[i]).state != State::Completed)
            ==> without_completed(s) == s,
    decreases s.len(),
{
    if s.len() > 0 {
        lemma_without_completed(s.drop_last());
        if forall|i: int| 0 <= i < s.len() ==> (#[trigger] s[i]).state != State::Completed {
            assert forall|i: int| 0 <= i < s.drop_last().len() implies (#[trigger] s.drop_last()[i]).state
                != State::Completed by {
                assert(s.drop_last()[i] == s[i]);
            }
            assert(s.drop_last().push(s.last()) =~= s);
        }
    }
}

/// A data structure which keeps track of when a task is started and supports task
/// management operations.
#[derive(Debug)]
pub struct TaskManager {
    list: Vec<TimedTask>,
}

/// The start times of the tasks that `without_completed` keeps, in their order.
pub open spec fn keep_timers(s: Seq<TaskView>, t: Seq<Instant>) -> Seq<Instant>
    decreases s.len(),
{
    if s.len() == 0 || t.len() == 0 {
        Seq::empty()
    } else if s.last().state == State::Completed {
        keep_timers(s.drop_last(), t.drop_last())
    } else {
        keep_timers(s.drop_last(), t.drop_last()).push(t.last())
    }
}

/// The start times of the tasks that `without_path` keeps, in their order.
pub open spec fn timers_without_path(s: Seq<TaskView>, t: Seq<Instant>, p: Seq<char>) -> Seq<Instant>
    decreases s.len(),
{
    if s.len() == 0 || t.len() == 0 {
        Seq::empty()
    } else if s.last().has_path(p) {
        timers_without_path(s.drop_last(), t.drop_last(), p)
    } else {
        timers_without_path(s.drop_last(), t.drop_last(), p).push(t.last())
    }
}

impl View for TaskManager {
    type V = Seq<TaskView>;

    closed spec fn view(&self) -> Seq<TaskView> {
        self.list@.map_values(|t: TimedTask| t@)
    }
}

/// The start times kept by cleaning line up with the tasks kept: one per task.
pub proof fn law_kept_timers_line_up(s: Seq<TaskView>, t: Seq<Instant>, p: Seq<char>)
    requires
        s.len() == t.len(),
    ensures
        keep_timers(s, t).len() == without_completed(s).len(),
        timers_without_path(s, t, p).len() == without_path(s, p).len(),
    decreases s.len(),
{
    if s.len() > 0 {
        law_kept_timers_line_up(s.drop_last(), t.drop_last(), p);
    }
}

/// A copy of the tasks and their start times. A task manager that several parties
/// use is shared behind a lock by the program that runs the coordinator.
impl Clone for TaskManager {
    fn clone(&self) -> (res: Self)
        ensures
            res@ == self@,
            res.timers() == self.timers(),
    {
        let mut list: Vec<TimedTask> = Vec::new();
        let mut i: usize = 0;
        while i < self.list.len()
            invariant
                0 <= i <= self.list.len(),
                list@.len() == i,
                forall|k: int| 0 <= k < i ==> (#[trigger] list@[k])@ == self.list@[k]@
                    && list@[k].started_at() == self.list@[k].started_at(),
            decreases self.list.len() - i,
        {
            list.push(self.list[i].clone());
            i = i + 1;
        }
        let res = TaskManager { list };
        proof {
            assert(res@ =~= self@);
            assert(res.timers() =~= self.timers());
        }
        res
    }
}

impl TaskManager {
    /// The start time of each task, in the order of the tasks.
    pub closed spec fn timers(&self) -> Seq<Instant> {
        self.list@.map_values(|t: TimedTask| t.started_at())
    }

    /// The readings of each task's last progress check, in the order of the tasks.
    pub closed spec fn checks(&self) -> Seq<Option<(u128, u128)>> {
        self.list@.map_values(|t: TimedTask| t.last_check())
    }

    /// There is one start time per task.
    pub proof fn lemma_timers_len(&self)
        ensures
            self.timers().len() == self@.len(),
    {
    }

    /// An empty task manager.
    pub fn new() -> (tm: Self)
        ensures
            tm@ == Seq::<TaskView>::empty(),
            tm.timers() == Seq::<Instant>::empty(),
    {
        let tm = TaskManager { list: Vec::new() };
        proof {
            assert(tm@ =~= Seq::<TaskView>::empty());
            assert(tm.timers() =~= Seq::<Instant>::empty());
        }
        tm
    }

    /// Adds a task to the end of the list, starting its clock; the earlier tasks keep
    /// their start times.
    pub fn add_task(&mut self, task: Task)
        ensures
            final(self)@ == old(self)@.push(task@),
            final(self).timers().len() == old(self).timers().len() + 1,
            final(self).timers().take(old(self).timers().len() as int) == old(self).timers(),
    {
        let ghost t = task@;
        self.list.push(TimedTask::new(task));
        proof {
            assert(self@ =~= old(self)@.push(t));
            assert(self.timers().take(old(self).timers().len() as int) =~= old(self).timers());
        }
    }

    /// Gives the first idle task of the requested type (of any type when `task_type`
    /// is `None`) to worker `id`: the task becomes in progress, its clock restarts,
    /// and its paths and type are returned.
    pub fn get_idle_task(&mut self, id: i8, task_type: Option<TaskType>) -> (r: Option<(Vec<String>, TaskType)>)
        ensures
            final(self)@ == take_idle(old(self)@, id, task_type),
            ({
                let i = first_idle(old(self)@, task_type);
                match r {
                    Some((p, ty)) => i < old(self)@.len() && p.deep_view() == old(self)@[i].path
                        && ty == old(self)@[i].task_type,
                    None => i == old(self)@.len(),
                }
            }),
            task_type matches Some(t) ==> (r matches Some((_, ty)) ==> ty == t),
            r is None ==> forall|j: int|
                0 <= j < old(self)@.len() ==> !idle_for(#[trigger] old(self)@[j], task_type),
            final(self).timers().len() == old(self).timers().len(),
            forall|j: int|
                0 <= j < old(self).timers().len() && j != first_idle(old(self)@, task_type)
                    ==> #[trigger] final(self).timers()[j] == old(self).timers()[j],
    {
        let ghost s = self@;
        proof {
            lemma_first_idle(s, task_type);
        }
        let mut i: usize = 0;
        while i < self.list.len()
            invariant
                self@ == s,
                s == old(self)@,
                self.timers() == old(self).timers(),
                0 <= i <= self.list.len(),
                forall|j: int| 0 <= j < i ==> !idle_for(#[trigger] s[j], task_type),
            decreases self.list.len() - i,
        {
            let state = self.list[i].task.get_state();
            let ty = self.list[i].task.get_task_type();
            let wanted = match task_type {
                None => true,
                Some(t) => t == ty,
            };
            if state == State::Idle && wanted {
                proof {
                    assert(s[i as int] == self.list@[i as int]@);
                    assert(idle_for(s[i as int], task_type));
                    lemma_first_idle(s, task_type);
                    assert(first_idle(s, task_type) == i);
                }
                let mut tt = self.list[i].clone();
                tt.task.set_worker(id);
                tt.task.set_state(State::InProgress);
                tt.reset_timer();
                let path = tt.task.get_path();
                let ghost before = self.list@;
                self.list.set(i, tt);
                proof {
                    assert(self@ =~= take_idle(s, id, task_type));
                    assert forall|j: int|
                        0 <= j < old(self).timers().len() && j != first_idle(old(self)@, task_type)
                            implies #[trigger] self.timers()[j] == old(self).timers()[j] by {
                        assert(self.list@[j] == before[j]);
                        assert(old(self).timers()[j] == before[j].started_at());
                    }
                }
                return Some((path, ty));
            }
            proof {
                assert(s[i as int] == self.list@[i as int]@);
            }
            i = i + 1;
        }
        None
    }

    /// Puts the first task one of whose paths is `task` in state `state` and returns
    /// its type; `None` when no task has that path.
    pub fn update_state(&mut self, task: String, state: State) -> (r: Option<TaskType>)
        ensures
            final(self)@ == set_state_of(old(self)@, task@, state),
            ({
                let i = first_with_path(old(self)@, task@);
                match r {
                    Some(ty) => i < old(self)@.len() && ty == old(self)@[i].task_type,
                    None => i == old(self)@.len(),
                }
            }),
            final(self)@.len() == old(self)@.len(),
            forall|j: int|
                0 <= j < old(self)@.len() && (forall|m: int|
                    0 <= m < old(self)@[j].path.len() ==> old(self)@[j].path[m] != task@)
                    ==> #[trigger] final(self)@[j] == old(self)@[j],
            r is Some ==> exists|j: int, m: int|
                0 <= j < old(self)@.len() && 0 <= m < old(self)@[j].path.len()
                    && #[trigger] old(self)@[j].path[m] == task@,
            final(self).timers() == old(self).timers(),
    {
        let ghost s = self@;
        proof {
            lemma_first_with_path(s, task@);
            assert forall|j: int|
                0 <= j < s.len() && (forall|m: int| 0 <= m < s[j].path.len() ==> s[j].path[m] != task@)
                    implies #[trigger] set_state_of(s, task@, state)[j] == s[j] by {
                law_completion_spares_other_tasks(s, task@, state, j, ReduceType::Traditional, 0, 0, None);
            }
            let i = first_with_path(s, task@);
            if i < s.len() {
                law_has_path_is_exact(s[i], task@, task@);
                let m = choose|m: int| 0 <= m < s[i].path.len() && s[i].path[m] == task@;
                assert(s[i].path[m] == task@);
            }
        }
        let mut i: usize = 0;
        while i < self.list.len()
            invariant
                self@ == s,
                s == old(self)@,
                self.timers() == old(self).timers(),
                0 <= i <= self.list.len(),
                forall|j: int| 0 <= j < i ==> !(#[trigger] s[j]).has_path(task@),
            decreases self.list.len() - i,
        {
            proof {
                assert(s[i as int] == self.list@[i as int]@);
            }
            if self.list[i].task.has_path(&task) {
                proof {
                    lemma_first_with_path(s, task@);
                    assert(first_with_path(s, task@) == i);
                }
                let mut tt = self.list[i].clone();
                tt.task.set_state(state);
                let ty = tt.task.get_task_type();
                let ghost before = self.list@;
                self.list.set(i, tt);
                proof {
                    assert(self@ =~= set_state_of(s, task@, state));
                    assert(self.timers() =~= old(self).timers()) by {
                        assert forall|j: int| 0 <= j < self.list@.len() implies self.list@[j].started_at()
                            == before[j].started_at() by {}
                    }
                }
                return Some(ty);
            }
            i = i + 1;
        }
        None
    }

    /// Checks the progress of every task one of whose paths is `task`: each such task
    /// that has been in progress for at least `duration` goes back to idle.
    pub fn check_progress(&mut self, task: String, duration: Duration)
        ensures
            final(self)@.len() == old(self)@.len(),
            forall|j: int|
                0 <= j < old(self)@.len() ==> if (#[trigger] old(self)@[j]).has_path(task@) {
                    may_expire(old(self)@[j], final(self)@[j])
                } else {
                    final(self)@[j] == old(self)@[j]
                },
            forall|j: int|
                0 <= j < old(self)@.len() && (forall|m: int|
                    0 <= m < old(self)@[j].path.len() ==> old(self)@[j].path[m] != task@)
                    ==> #[trigger] final(self)@[j] == old(self)@[j],
            final(self).checks().len() == old(self).checks().len(),
            forall|j: int|
                0 <= j < old(self)@.len() ==> if (#[trigger] old(self)@[j]).has_path(task@) {
                    checked_against(old(self)@[j], final(self)@[j], final(self).checks()[j])
                } else {
                    final(self).checks()[j] == old(self).checks()[j]
                },
            final(self).timers() == old(self).timers(),
    {
        let ghost s = self@;
        proof {
            assert forall|j: int| 0 <= j < s.len() implies ((#[trigger] s[j]).has_path(task@) <==> exists|m: int|
                0 <= m < s[j].path.len() && s[j].path[m] == task@) by {
                law_has_path_is_exact(s[j], task@, task@);
            }
        }
        let mut i: usize = 0;
        while i < self.list.len()
            invariant
                s == old(self)@,
                self@.len() == s.len(),
                self.timers() == old(self).timers(),
                0 <= i <= self.list.len(),
                forall|j: int|
                    0 <= j < i ==> if (#[trigger] s[j]).has_path(task@) {
                        may_expire(s[j], self@[j]) && checked_against(s[j], self@[j], self.checks()[j])
                    } else {
                        self@[j] == s[j] && self.checks()[j] == old(self).checks()[j]
                    },
                forall|j: int| i <= j < s.len() ==> self@[j] == #[trigger] s[j],
                forall|j: int| i <= j < s.len() ==> #[trigger] self.checks()[j] == old(self).checks()[j],
                self.checks().len() == s.len(),
            decreases self.list.len() - i,
        {
            proof {
                assert(self@[i as int] == self.list@[i as int]@);
            }
            if self.list[i].task.has_path(&task) {
                let mut tt = self.list[i].clone();
                tt.check_progress(duration);
                let ghost before = self.list@;
                let ghost before_checks = self.checks();
                self.list.set(i, tt);
                proof {
                    assert(self.timers() =~= old(self).timers()) by {
                        assert forall|j: int| 0 <= j < self.list@.len() implies self.list@[j].started_at()
                            == before[j].started_at() by {}
                    }
                    assert forall|j: int| i < j < s.len() implies #[trigger] self.checks()[j] == old(
                        self,
                    ).checks()[j] by {
                        assert(self.list@[j] == before[j]);
                        assert(before_checks[j] == old(self).checks()[j]);
                    }
                }
            }
            i = i + 1;
        }
    }

    /// Checks the progress of every task: each task that has been in progress for at
    /// least `duration` goes back to idle. Each task is compared with its own reading
    /// of the clock, which `checks` records with the limit.
    pub fn check_progress_all(&mut self, duration: Duration)
        ensures
            final(self)@.len() == old(self)@.len(),
            forall|j: int|
                0 <= j < old(self)@.len() ==> may_expire(#[trigger] old(self)@[j], final(self)@[j]),
            final(self).checks().len() == old(self)@.len(),
            forall|j: int|
                0 <= j < old(self)@.len() ==> checked_against(
                    #[trigger] old(self)@[j],
                    final(self)@[j],
                    final(self).checks()[j],
                ),
            final(self).timers() == old(self).timers(),
    {
        let ghost s = self@;
        let mut i: usize = 0;
        while i < self.list.len()
            invariant
                s == old(self)@,
                self@.len() == s.len(),
                self.timers() == old(self).timers(),
                0 <= i <= self.list.len(),
                forall|j: int| 0 <= j < i ==> may_expire(#[trigger] s[j], self@[j])
                    && checked_against(s[j], self@[j], self.checks()[j]),
                forall|j: int| i <= j < s.len() ==> self@[j] == #[trigger] s[j],
            decreases self.list.len() - i,
        {
            let mut tt = self.list[i].clone();
            tt.check_progress(duration);
            let ghost before = self.list@;
            self.list.set(i, tt);
            proof {
                assert(self.timers() =~= old(self).timers()) by {
                    assert forall|j: int| 0 <= j < self.list@.len() implies self.list@[j].started_at()
                        == before[j].started_at() by {}
                }
            }
            i = i + 1;
        }
    }

    /// The worker of the first task one of whose paths is `path`; `None` when no task
    /// has that path or that task was given to no worker.
    pub fn get_task_id(&mut self, path: String) -> (r: Option<i8>)
        ensures
            final(self)@ == old(self)@,
            final(self).timers() == old(self).timers(),
            r == (if first_with_path(old(self)@, path@) < old(self)@.len() {
                old(self)@[first_with_path(old(self)@, path@)].worker
            } else {
                None
            }),
    {
        match self.get_task(path) {
            Some(t) => t.get_worker_id(),
            None => None,
        }
    }

    /// A copy of the first task one of whose paths is `path`; `None` when no task has
    /// that path.
    pub fn get_task(&mut self, path: String) -> (r: Option<Task>)
        ensures
            final(self)@ == old(self)@,
            final(self).timers() == old(self).timers(),
            ({
                let i = first_with_path(old(self)@, path@);
                match r {
                    Some(t) => i < old(self)@.len() && t@ == old(self)@[i],
                    None => i == old(self)@.len(),
                }
            }),
            r matches Some(t) ==> exists|m: int| 0 <= m < t@.path.len() && #[trigger] t@.path[m] == path@,
    {
        let ghost s = self@;
        proof {
            lemma_first_with_path(s, path@);
            if first_with_path(s, path@) < s.len() {
                law_has_path_is_exact(s[first_with_path(s, path@)], path@, path@);
            }
        }
        proof {
            lemma_first_with_path(s, path@);
        }
        let mut i: usize = 0;
        while i < self.list.len()
            invariant
                self@ == s,
                self.timers() == old(self).timers(),
                0 <= i <= self.list.len(),
                forall|j: int| 0 <= j < i ==> !(#[trigger] s[j]).has_path(path@),
            decreases self.list.len() - i,
        {
            proof {
                assert(s[i as int] == self.list@[i as int]@);
            }
            if self.list[i].task.has_path(&path) {
                proof {
                    lemma_first_with_path(s, path@);
                    assert(first_with_path(s, path@) == i);
                }
                return Some(self.list[i].task.clone());
            }
            i = i + 1;
        }
        None
    }

    /// Removes completed tasks.
    pub fn clean(&mut self)
        ensures
            final(self)@ == without_completed(old(self)@),
            final(self).timers() == keep_timers(old(self)@, old(self).timers()),
    {
        let ghost s = self@;
        let ghost ts = self.timers();
        let mut kept: Vec<TimedTask> = Vec::new();
        let mut i: usize = 0;
        while i < self.list.len()
            invariant
                self@ == s,
                ts == self.timers(),
                s == old(self)@,
                ts == old(self).timers(),
                0 <= i <= self.list.len(),
                kept@.map_values(|t: TimedTask| t@) == without_completed(s.take(i as int)),
                kept@.map_values(|t: TimedTask| t.started_at()) == keep_timers(s.take(i as int), ts.take(i as int)),
            decreases self.list.len() - i,
        {
            proof {
                assert(s.take(i + 1).drop_last() =~= s.take(i as int));
                assert(s.take(i + 1).last() == self.list@[i as int]@);
            }
            if self.list[i].task.get_state() != State::Completed {
                kept.push(self.list[i].clone());
            }
            proof {
                assert(ts.take(i + 1).drop_last() =~= ts.take(i as int));
                assert(ts.take(i + 1).last() == self.list@[i as int].started_at());
                assert(kept@.map_values(|t: TimedTask| t@) =~= without_completed(s.take(i + 1)));
                assert(kept@.map_values(|t: TimedTask| t.started_at()) =~= keep_timers(
                    s.take(i + 1),
                    ts.take(i + 1),
                ));
            }
            i = i + 1;
        }
        proof {
            assert(s.take(i as int) =~= s);
            assert(ts.take(i as int) =~= ts);
        }
        self.list = kept;
        proof {
            assert(self.timers() =~= kept@.map_values(|t: TimedTask| t.started_at()));
        }
    }

    /// Removes every task one of whose paths is `task`.
    pub fn remove_task(&mut self, task: String)
        ensures
            final(self)@ == without_path(old(self)@, task@),
            forall|k: int|
                0 <= k < final(self)@.len() ==> forall|m: int|
                    0 <= m < (#[trigger] final(self)@[k]).path.len() ==> final(self)@[k].path[m] != task@,
            forall|j: int|
                0 <= j < old(self)@.len() && (forall|m: int|
                    0 <= m < old(self)@[j].path.len() ==> old(self)@[j].path[m] != task@)
                    ==> final(self)@.contains(#[trigger] old(self)@[j]),
            final(self).timers() == timers_without_path(old(self)@, old(self).timers(), task@),
    {
        let ghost s = self@;
        proof {
            lemma_without_path(s, task@);
            let w = without_path(s, task@);
            assert forall|k: int| 0 <= k < w.len() implies forall|m: int|
                0 <= m < (#[trigger] w[k]).path.len() ==> w[k].path[m] != task@ by {
                law_has_path_is_exact(w[k], task@, task@);
            }
            assert forall|j: int|
                0 <= j < s.len() && (forall|m: int| 0 <= m < s[j].path.len() ==> s[j].path[m] != task@)
                    implies w.contains(#[trigger] s[j]) by {
                law_has_path_is_exact(s[j], task@, task@);
            }
        }
        let ghost ts = self.timers();
        let mut kept: Vec<TimedTask> = Vec::new();
        let mut i: usize = 0;
        while i < self.list.len()
            invariant
                self@ == s,
                ts == self.timers(),
                s == old(self)@,
                ts == old(self).timers(),
                0 <= i <= self.list.len(),
                kept@.map_values(|t: TimedTask| t@) == without_path(s.take(i as int), task@),
                kept@.map_values(|t: TimedTask| t.started_at()) == timers_without_path(
                    s.take(i as int),
                    ts.take(i as int),
                    task@,
                ),
            decreases self.list.len() - i,
        {
            proof {
                assert(s.take(i + 1).drop_last() =~= s.take(i as int));
                assert(s.take(i + 1).last() == self.list@[i as int]@);
            }
            if !self.list[i].task.has_path(&task) {
                kept.push(self.list[i].clone());
            }
            proof {
                assert(ts.take(i + 1).drop_last() =~= ts.take(i as int));
                assert(ts.take(i + 1).last() == self.list@[i as int].started_at());
                assert(kept@.map_values(|t: TimedTask| t.started_at()) =~= timers_without_path(
                    s.take(i + 1),
                    ts.take(i + 1),
                    task@,
                ));
                assert(kept@.map_values(|t: TimedTask| t@) =~= without_path(s.take(i + 1), task@));
            }
            i = i + 1;
        }
        proof {
            assert(s.take(i as int) =~= s);
            assert(ts.take(i as int) =~= ts);
        }
        self.list = kept;
        proof {
            assert(self.timers() =~= kept@.map_values(|t: TimedTask| t.started_at()));
        }
    }

    /// Whether the job is done: it is when no task remains.
    pub fn status(&self) -> (st: MapReduceStatus)
        ensures
            st == (if self@.len() == 0 { MapReduceStatus::Completed } else { MapReduceStatus::InProgress }),
    {
        if self.list.len() == 0 {
            MapReduceStatus::Completed
        } else {
            MapReduceStatus::InProgress
        }
    }

    /// Task types need no check: every task has one of the two types.
    pub fn check_task_type(&self) -> (b: bool)
        ensures
            b,
    {
        true
    }

    /// The number of tasks of type `task_type`, or of all tasks when it is `None`.
    pub fn get_size(&self, task_type: Option<TaskType>) -> (n: usize)
        ensures
            n == (match task_type {
                None => self@.len(),
                Some(ty) => count_type(self@, ty),
            }),
    {
        match task_type {
            None => self.list.len(),
            Some(ty) => {
                let mut count: usize = 0;
                let mut i: usize = 0;
                while i < self.list.len()
                    invariant
                        0 <= i <= self.list.len(),
                        count == count_type(self@.take(i as int), ty),
                        count <= i,
                    decreases self.list.len() - i,
                {
                    proof {
                        assert(self@.take(i + 1).drop_last() =~= self@.take(i as int));
                        assert(self@.take(i + 1).last() == self.list@[i as int]@);
                    }
                    if self.list[i].task.get_task_type() == ty {
                        count = count + 1;
                    }
                    i = i + 1;
                }
                proof {
                    assert(self@.take(i as int) =~= self@);
                }
                count
            },
        }
    }
}

/// The paths of the reduce task with number `j`: `mr-<i>-<j>` for each map task `i`.
fn reduce_inputs_vec(nmap: usize, j: usize) -> (v: Vec<String>)
    ensures
        v.deep_view() == reduce_inputs(nmap as nat, j as nat),
{
    let jname = decimal_string(j as u64);
    let mut v: Vec<String> = Vec::new();
    let mut i: usize = 0;
    while i < nmap
        invariant
            0 <= i <= nmap,
            jname@ == decimal(j as nat),
            v.deep_view() == reduce_inputs(nmap as nat, j as nat).take(i as int),
        decreases nmap - i,
    {
        let iname = decimal_string(i as u64);
        let name = file_name_string(&iname, &jname);
        let ghost prev = v.deep_view();
        v.push(name);
        proof {
            assert(prev.len() == i);
            assert(v@.len() == i + 1);
            assert(v.deep_view()[i as int] == file_name(decimal(i as nat), decimal(j as nat)));
            assert(v.deep_view() =~= reduce_inputs(nmap as nat, j as nat).take(i + 1));
        }
        i = i + 1;
    }
    proof {
        assert(reduce_inputs(nmap as nat, j as nat).take(nmap as int) =~= reduce_inputs(
            nmap as nat,
            j as nat,
        ));
    }
    v
}

impl TaskManager {
    /// Adds the reduce tasks of an expedited map completion by worker `id`.
    fn add_expedited_reduce_tasks(&mut self, id: i8, nreduce: usize)
        ensures
            final(self)@ == old(self)@ + expedited_reduce_tasks(id, nreduce as nat),
            final(self).timers().len() == old(self).timers().len() + nreduce,
            final(self).timers().take(old(self).timers().len() as int) == old(self).timers(),
    {
        let ghost s = self@;
        let ghost ts = self.timers();
        let wname = signed_decimal_string(id);
        let mut j: usize = 0;
        while j < nreduce
            invariant
                0 <= j <= nreduce,
                wname@ == signed_decimal(id as int),
                self@ == s + expedited_reduce_tasks(id, nreduce as nat).take(j as int),
                ts == old(self).timers(),
                self.timers().len() == ts.len() + j,
                self.timers().take(ts.len() as int) == ts,
            decreases nreduce - j,
        {
            let jname = decimal_string(j as u64);
            let name = file_name_string(&wname, &jname);
            let mut paths: Vec<String> = Vec::new();
            paths.push(name);
            proof {
                assert(paths.deep_view() =~= seq![file_name(signed_decimal(id as int), decimal(j as nat))]);
            }
            let mut task = Task::new(paths, State::Idle, TaskType::Reduce);
            task.set_worker(id);
            let ghost before = self.timers();
            self.add_task(task);
            proof {
                assert(self.timers().take(ts.len() as int) =~= self.timers().take(before.len() as int).take(
                    ts.len() as int,
                ));
            }
            proof {
                assert(self@ =~= s + expedited_reduce_tasks(id, nreduce as nat).take(j + 1));
            }
            j = j + 1;
        }
        proof {
            assert(expedited_reduce_tasks(id, nreduce as nat).take(nreduce as int) =~= expedited_reduce_tasks(
                id,
                nreduce as nat,
            ));
        }
    }

    /// Adds the reduce tasks of the traditional schedule.
    fn add_traditional_reduce_tasks(&mut self, nmap: usize, nreduce: usize)
        ensures
            final(self)@ == old(self)@ + traditional_reduce_tasks(nmap as nat, nreduce as nat),
            final(self).timers().len() == old(self).timers().len() + nreduce,
            final(self).timers().take(old(self).timers().len() as int) == old(self).timers(),
    {
        let ghost s = self@;
        let ghost ts = self.timers();
        let mut j: usize = 0;
        while j < nreduce
            invariant
                0 <= j <= nreduce,
                self@ == s + traditional_reduce_tasks(nmap as nat, nreduce as nat).take(j as int),
                ts == old(self).timers(),
                self.timers().len() == ts.len() + j,
                self.timers().take(ts.len() as int) == ts,
            decreases nreduce - j,
        {
            let paths = reduce_inputs_vec(nmap, j);
            let task = Task::new(paths, State::Idle, TaskType::Reduce);
            let ghost before = self.timers();
            self.add_task(task);
            proof {
                assert(self.timers().take(ts.len() as int) =~= self.timers().take(before.len() as int).take(
                    ts.len() as int,
                ));
            }
            proof {
                assert(self@ =~= s + traditional_reduce_tasks(nmap as nat, nreduce as nat).take(j + 1));
            }
            j = j + 1;
        }
        proof {
            assert(traditional_reduce_tasks(nmap as nat, nreduce as nat).take(nreduce as int)
                =~= traditional_reduce_tasks(nmap as nat, nreduce as nat));
        }
    }

    /// Records that the task with path `path` is completed. Completed tasks are
    /// removed. When a map task completes, reduce tasks are scheduled: under
    /// `ReduceType::Expedited`, `nreduce` tasks reading `mr-<id>-<j>`, given to worker
    /// `id`; under `ReduceType::Traditional`, once no map task remains, `nreduce`
    /// tasks, the `j`-th reading `mr-<i>-<j>` for every map task `i < nmap`.
    pub fn task_completed(
        &mut self,
        path: String,
        reduce_type: ReduceType,
        nreduce: usize,
        nmap: usize,
        id: Option<i8>,
    ) -> (r: Result<(), TaskManagerError>)
        requires
            first_with_path(old(self)@, path@) < old(self)@.len(),
            old(self)@[first_with_path(old(self)@, path@)].task_type == TaskType::MapTask
                && reduce_type == ReduceType::Expedited ==> id is Some,
        ensures
            r is Ok,
            final(self)@ == complete_task(old(self)@, path@, reduce_type, nreduce as nat, nmap as nat, id),
            forall|k: int| 0 <= k < final(self)@.len() ==> (#[trigger] final(self)@[k]).state != State::Completed,
            forall|j: int|
                0 <= j < old(self)@.len() && old(self)@[j].state != State::Completed && (forall|m: int|
                    0 <= m < old(self)@[j].path.len() ==> old(self)@[j].path[m] != path@)
                    ==> final(self)@.contains(#[trigger] old(self)@[j]),
            ({
                let kept = keep_timers(set_state_of(old(self)@, path@, State::Completed), old(self).timers());
                final(self).timers().take(kept.len() as int) == kept
            }),
    {
        let ghost s = self@;
        let ghost p = path@;
        proof {
            lemma_first_with_path(s, p);
            assert forall|j: int|
                0 <= j < s.len() && s[j].state != State::Completed && (forall|m: int|
                    0 <= m < s[j].path.len() ==> s[j].path[m] != p)
                    implies complete_task(s, p, reduce_type, nreduce as nat, nmap as nat, id).contains(
                    #[trigger] s[j],
                ) by {
                law_completion_spares_other_tasks(
                    s,
                    p,
                    State::Completed,
                    j,
                    reduce_type,
                    nreduce as nat,
                    nmap as nat,
                    id,
                );
            }
        }
        let ty = self.update_state(path, State::Completed);
        proof {
            lemma_without_completed(set_state_of(s, p, State::Completed));
        }
        match ty {
            Some(TaskType::MapTask) => {
                self.clean();
                match reduce_type {
                    ReduceType::Expedited => {
                        let w = id.unwrap();
                        self.add_expedited_reduce_tasks(w, nreduce);
                    },
                    ReduceType::Traditional => {
                        if self.get_size(Some(TaskType::MapTask)) == 0 {
                            self.add_traditional_reduce_tasks(nmap, nreduce);
                        }
                    },
                }
                Ok(())
            },
            Some(TaskType::Reduce) => {
                self.clean();
                Ok(())
            },
            None => Ok(()),
        }
    }
}

/// The error a task manager operation can report.
#[derive(Debug, PartialEq, Eq, Structural, Clone, Copy)]
pub enum TaskManagerError {
    TaskCompletedError,
}

impl TaskManagerError {
    /// The message that describes the error.
    pub fn message(&self) -> (m: String)
        ensures
            m@ == seq!['T', 'a', 's', 'k', ' ', 'C', 'o', 'm', 'p', 'l', 'e', 't', 'e', 'd', ' ', 'E', 'r', 'r', 'o', 'r'],
    {
        proof {
            reveal_strlit("Task Completed Error");
        }
        String::from_str("Task Completed Error")
    }
}

/// `count_type` of a sequence with one more task.
proof fn lemma_count_type_push(s: Seq<TaskView>, t: TaskView, ty: TaskType)
    ensures
        count_type(s.push(t), ty) == count_type(s, ty) + if t.task_type == ty { 1nat } else { 0nat },
{
    assert(s.push(t).drop_last() =~= s);
}

/// `count_type` of a sequence with one task taken out.
proof fn lemma_count_type_remove(s: Seq<TaskView>, i: int, ty: TaskType)
    requires
        0 <= i < s.len(),
    ensures
        count_type(s, ty) == count_type(s.remove(i), ty) + if s[i].task_type == ty { 1nat } else { 0nat },
{
    let a = s.take(i);
    let b = s.skip(i + 1);
    assert(s.remove(i) =~= a + b);
    assert(s =~= (a + seq![s[i]]) + b);
    lemma_count_type_append(a + seq![s[i]], b, ty);
    lemma_count_type_append(a, b, ty);
    lemma_count_type_push(a, s[i], ty);
    assert(a.push(s[i]) =~= a + seq![s[i]]);
}

/// `count_type` of a sequence with one task replaced by a task of the same type.
proof fn lemma_count_type_update(s: Seq<TaskView>, i: int, t: TaskView, ty: TaskType)
    requires
        0 <= i < s.len(),
        t.task_type == s[i].task_type,
    ensures
        count_type(s.update(i, t), ty) == count_type(s, ty),
{
    lemma_count_type_remove(s, i, ty);
    lemma_count_type_remove(s.update(i, t), i, ty);
    assert(s.update(i, t).remove(i) =~= s.remove(i));
}

/// A sequence of reduce tasks holds no map task.
proof fn lemma_count_all_reduce(s: Seq<TaskView>)
    requires
        forall|k: int| 0 <= k < s.len() ==> (#[trigger] s[k]).task_type == TaskType::Reduce,
    ensures
        count_type(s, TaskType::Reduce) == s.len(),
        count_type(s, TaskType::MapTask) == 0,
    decreases s.len(),
{
    if s.len() > 0 {
        assert forall|k: int| 0 <= k < s.drop_last().len() implies (#[trigger] s.drop_last()[k]).task_type
            == TaskType::Reduce by {
            assert(s.drop_last()[k] == s[k]);
        }
        lemma_count_all_reduce(s.drop_last());
    }
}

/// When the only completed task is at `i`, dropping completed tasks drops just it.
proof fn lemma_without_only_completed(u: Seq<TaskView>, i: int)
    requires
        0 <= i < u.len(),
        forall|k: int| 0 <= k < u.len() ==> ((#[trigger] u[k]).state == State::Completed <==> k == i),
    ensures
        without_completed(u) == u.remove(i),
    decreases u.len(),
{
    let d = u.drop_last();
    if i == u.len() - 1 {
        assert forall|k: int| 0 <= k < d.len() implies (#[trigger] d[k]).state != State::Completed by {
            assert(d[k] == u[k]);
        }
        lemma_without_completed(d);
        assert(u.remove(i) =~= d);
    } else {
        assert forall|k: int| 0 <= k < d.len() implies ((#[trigger] d[k]).state == State::Completed <==> k == i) by {
            assert(d[k] == u[k]);
        }
        lemma_without_only_completed(d, i);
        assert(u.remove(i) =~= d.remove(i).push(u.last()));
    }
}

/// Every task is a map task or a reduce task: the sizes by type add up to the size.
pub proof fn law_size_by_type(s: Seq<TaskView>)
    ensures
        count_type(s, TaskType::MapTask) + count_type(s, TaskType::Reduce) == s.len(),
    decreases s.len(),
{
    if s.len() > 0 {
        law_size_by_type(s.drop_last());
    }
}

/// Adding a task adds one to the size of its type and leaves the other type's size.
pub proof fn law_add_task_counts(s: Seq<TaskView>, t: TaskView, ty: TaskType)
    ensures
        count_type(s.push(t), ty) == count_type(s, ty) + if t.task_type == ty { 1nat } else { 0nat },
{
    lemma_count_type_push(s, t, ty);
}

/// Handing out a task changes that task alone: it is now in progress and given to
/// the worker, no other task changes, and the sizes by type stay.
pub proof fn law_hand_out_changes_one_task(s: Seq<TaskView>, id: i8, f: Option<TaskType>, ty: TaskType)
    ensures
        take_idle(s, id, f).len() == s.len(),
        first_idle(s, f) < s.len() ==> ({
            let i = first_idle(s, f);
            &&& take_idle(s, id, f)[i].state == State::InProgress
            &&& take_idle(s, id, f)[i].worker == Some(id)
            &&& take_idle(s, id, f)[i].path == s[i].path
            &&& take_idle(s, id, f)[i].task_type == s[i].task_type
            &&& forall|j: int| 0 <= j < s.len() && j != i ==> #[trigger] take_idle(s, id, f)[j] == s[j]
        }),
        count_type(take_idle(s, id, f), ty) == count_type(s, ty),
{
    lemma_first_idle(s, f);
    let i = first_idle(s, f);
    if i < s.len() {
        lemma_count_type_update(s, i, s[i].with_worker(id).with_state(State::InProgress), ty);
    }
}

/// A task handed out is not handed out again until it goes back to idle: the next
/// task handed out for the same request comes later in the list, if there is one.
pub proof fn law_hand_out_once(s: Seq<TaskView>, id: i8, f: Option<TaskType>)
    requires
        first_idle(s, f) < s.len(),
    ensures
        first_idle(take_idle(s, id, f), f) > first_idle(s, f),
{
    let t = take_idle(s, id, f);
    let i = first_idle(s, f);
    lemma_first_idle(s, f);
    lemma_first_idle(t, f);
    let k = first_idle(t, f);
    if k <= i {
        if k < i {
            assert(t[k] == s[k]);
        }
        assert(false);
    }
}

/// Checking progress never changes a task's paths, worker or type, and never touches
/// an idle or completed task.
pub proof fn law_progress_check_keeps_task(before: TaskView, after: TaskView)
    requires
        may_expire(before, after),
    ensures
        after.path == before.path,
        after.worker == before.worker,
        after.task_type == before.task_type,
        before.state != State::InProgress ==> after == before,
        after.state == before.state || after.state == State::Idle,
{
}

/// A recorded progress check sends an in-progress task whose elapsed time reached
/// the limit back to idle, keeping everything else about it, and leaves any other
/// task as it was.
pub proof fn law_progress_check_rule(before: TaskView, after: TaskView, elapsed: u128, limit: u128)
    requires
        checked_against(before, after, Some((elapsed, limit))),
    ensures
        before.state == State::InProgress && elapsed >= limit ==> after == (TaskView {
            state: State::Idle,
            ..before
        }),
        !(before.state == State::InProgress && elapsed >= limit) ==> after == before,
        may_expire(before, after),
{
}

/// Cleaning twice is cleaning once.
pub proof fn law_clean_idempotent(s: Seq<TaskView>)
    ensures
        without_completed(without_completed(s)) == without_completed(s),
{
    lemma_without_completed(s);
    lemma_without_completed(without_completed(s));
}

/// When no task is completed, reporting one task completed removes exactly that
/// task before any reduce task is scheduled.
pub proof fn law_completion_removes_one(s: Seq<TaskView>, p: Seq<char>, ty: TaskType)
    requires
        first_with_path(s, p) < s.len(),
        forall|k: int| 0 <= k < s.len() ==> (#[trigger] s[k]).state != State::Completed,
    ensures
        without_completed(set_state_of(s, p, State::Completed)) == s.remove(first_with_path(s, p)),
        count_type(without_completed(set_state_of(s, p, State::Completed)), ty) + (if s[first_with_path(s, p)].task_type
            == ty { 1nat } else { 0nat }) == count_type(s, ty),
{
    lemma_first_with_path(s, p);
    let i = first_with_path(s, p);
    let u = set_state_of(s, p, State::Completed);
    assert(u == s.update(i, s[i].with_state(State::Completed)));
    assert forall|k: int| 0 <= k < u.len() implies ((#[trigger] u[k]).state == State::Completed <==> k == i) by {
        if k != i {
            assert(u[k] == s[k]);
        }
    }
    lemma_without_only_completed(u, i);
    assert(u.remove(i) =~= s.remove(i));
    lemma_count_type_remove(s, i, ty);
}

/// Under the traditional schedule, when no task is completed, completing a map task
/// leaves one map task fewer, and adds `nreduce` reduce tasks exactly when it was
/// the last map task.
pub proof fn law_traditional_schedule(
    s: Seq<TaskView>,
    p: Seq<char>,
    nreduce: nat,
    nmap: nat,
    id: Option<i8>,
)
    requires
        first_with_path(s, p) < s.len(),
        s[first_with_path(s, p)].task_type == TaskType::MapTask,
        forall|k: int| 0 <= k < s.len() ==> (#[trigger] s[k]).state != State::Completed,
    ensures
        count_type(complete_task(s, p, ReduceType::Traditional, nreduce, nmap, id), TaskType::MapTask)
            == count_type(s, TaskType::MapTask) - 1,
        count_type(complete_task(s, p, ReduceType::Traditional, nreduce, nmap, id), TaskType::Reduce)
            == count_type(s, TaskType::Reduce) + if count_type(s, TaskType::MapTask) == 1 { nreduce } else { 0 },
{
    let rest = without_completed(set_state_of(s, p, State::Completed));
    law_completion_removes_one(s, p, TaskType::MapTask);
    law_completion_removes_one(s, p, TaskType::Reduce);
    let added = traditional_reduce_tasks(nmap, nreduce);
    lemma_count_all_reduce(added);
    lemma_count_type_append(rest, added, TaskType::MapTask);
    lemma_count_type_append(rest, added, TaskType::Reduce);
}

/// Under the expedited schedule, completing a map task (when no task is completed)
/// leaves one map task fewer and adds `nreduce` reduce tasks.
pub proof fn law_expedited_schedule(s: Seq<TaskView>, p: Seq<char>, nreduce: nat, nmap: nat, id: i8)
    requires
        first_with_path(s, p) < s.len(),
        s[first_with_path(s, p)].task_type == TaskType::MapTask,
        forall|k: int| 0 <= k < s.len() ==> (#[trigger] s[k]).state != State::Completed,
    ensures
        count_type(complete_task(s, p, ReduceType::Expedited, nreduce, nmap, Some(id)), TaskType::MapTask)
            == count_type(s, TaskType::MapTask) - 1,
        count_type(complete_task(s, p, ReduceType::Expedited, nreduce, nmap, Some(id)), TaskType::Reduce)
            == count_type(s, TaskType::Reduce) + nreduce,
{
    let rest = without_completed(set_state_of(s, p, State::Completed));
    law_completion_removes_one(s, p, TaskType::MapTask);
    law_completion_removes_one(s, p, TaskType::Reduce);
    let added = expedited_reduce_tasks(id, nreduce);
    lemma_count_all_reduce(added);
    lemma_count_type_append(rest, added, TaskType::MapTask);
    lemma_count_type_append(rest, added, TaskType::Reduce);
}

/// Completing a reduce task (when no task is completed) leaves one reduce task fewer
/// and schedules nothing, whatever the schedule.
pub proof fn law_reduce_completion(
    s: Seq<TaskView>,
    p: Seq<char>,
    rt: ReduceType,
    nreduce: nat,
    nmap: nat,
    id: Option<i8>,
)
    requires
        first_with_path(s, p) < s.len(),
        s[first_with_path(s, p)].task_type == TaskType::Reduce,
        forall|k: int| 0 <= k < s.len() ==> (#[trigger] s[k]).state != State::Completed,
    ensures
        complete_task(s, p, rt, nreduce, nmap, id) == s.remove(first_with_path(s, p)),
        count_type(complete_task(s, p, rt, nreduce, nmap, id), TaskType::Reduce) == count_type(s, TaskType::Reduce) - 1,
        count_type(complete_task(s, p, rt, nreduce, nmap, id), TaskType::MapTask) == count_type(s, TaskType::MapTask),
{
    law_completion_removes_one(s, p, TaskType::MapTask);
    law_completion_removes_one(s, p, TaskType::Reduce);
}

/// Sequences whose tasks have the same types, position by position, have the same
/// sizes by type.
proof fn lemma_count_type_same_types(a: Seq<TaskView>, b: Seq<TaskView>, ty: TaskType)
    requires
        a.len() == b.len(),
        forall|k: int| 0 <= k < a.len() ==> (#[trigger] a[k]).task_type == b[k].task_type,
    ensures
        count_type(a, ty) == count_type(b, ty),
    decreases a.len(),
{
    if a.len() > 0 {
        assert forall|k: int| 0 <= k < a.drop_last().len() implies (#[trigger] a.drop_last()[k]).task_type
            == b.drop_last()[k].task_type by {
            assert(a.drop_last()[k] == a[k]);
            assert(b.drop_last()[k] == b[k]);
        }
        lemma_count_type_same_types(a.drop_last(), b.drop_last(), ty);
    }
}

/// Checking progress keeps the sizes by type.
pub proof fn law_progress_check_keeps_sizes(before: Seq<TaskView>, after: Seq<TaskView>, ty: TaskType)
    requires
        after.len() == before.len(),
        forall|j: int| 0 <= j < before.len() ==> may_expire(#[trigger] before[j], after[j]),
    ensures
        count_type(after, ty) == count_type(before, ty),
{
    assert forall|k: int| 0 <= k < before.len() implies (#[trigger] before[k]).task_type == after[k].task_type by {
        assert(may_expire(before[k], after[k]));
    }
    lemma_count_type_same_types(before, after, ty);
}

/// Putting a task back in the state it had undoes a change of its state.
pub proof fn law_state_change_undone(s: Seq<TaskView>, p: Seq<char>, st: State)
    requires
        first_with_path(s, p) < s.len(),
    ensures
        set_state_of(set_state_of(s, p, st), p, s[first_with_path(s, p)].state) == s,
{
    lemma_first_with_path(s, p);
    let i = first_with_path(s, p);
    let u = set_state_of(s, p, st);
    assert forall|j: int| 0 <= j < i implies !(#[trigger] u[j]).has_path(p) by {
        assert(u[j] == s[j]);
    }
    lemma_first_with_path(u, p);
    let k = first_with_path(u, p);
    if k < i {
        assert(u[k] == s[k]);
    }
    assert(u[i].path == s[i].path);
    assert(k == i);
    assert(set_state_of(u, p, s[i].state) =~= s);
}

/// A worker that takes a map task and reports it completed under the traditional
/// schedule leaves one task fewer, plus the reduce tasks when it was the last map
/// task (when no task was completed and no earlier task shares the reported path).
pub proof fn law_take_then_complete(
    s: Seq<TaskView>,
    id: i8,
    f: Option<TaskType>,
    p: Seq<char>,
    nreduce: nat,
    nmap: nat,
)
    requires
        first_idle(s, f) < s.len(),
        s[first_idle(s, f)].task_type == TaskType::MapTask,
        s[first_idle(s, f)].has_path(p),
        forall|j: int| 0 <= j < first_idle(s, f) ==> !(#[trigger] s[j]).has_path(p),
        forall|k: int| 0 <= k < s.len() ==> (#[trigger] s[k]).state != State::Completed,
    ensures
        complete_task(take_idle(s, id, f), p, ReduceType::Traditional, nreduce, nmap, None).len() == s.len() - 1
            + if count_type(s, TaskType::MapTask) == 1 { nreduce } else { 0 },
{
    let i = first_idle(s, f);
    let t = take_idle(s, id, f);
    lemma_first_idle(s, f);
    assert forall|j: int| 0 <= j < i implies !(#[trigger] t[j]).has_path(p) by {
        assert(t[j] == s[j]);
    }
    lemma_first_with_path(t, p);
    let k = first_with_path(t, p);
    if k < i {
        assert(t[k] == s[k]);
    }
    assert(t[i].path == s[i].path);
    assert(k == i);
    assert forall|m: int| 0 <= m < t.len() implies (#[trigger] t[m]).state != State::Completed by {
        if m != i {
            assert(t[m] == s[m]);
        }
    }
    law_hand_out_changes_one_task(s, id, f, TaskType::MapTask);
    law_hand_out_changes_one_task(s, id, f, TaskType::Reduce);
    law_traditional_schedule(t, p, nreduce, nmap, None);
    let r = complete_task(t, p, ReduceType::Traditional, nreduce, nmap, None);
    law_size_by_type(r);
    law_size_by_type(s);
}

/// Marking task `k` completed and then dropping completed tasks is dropping task
/// `k` and the completed tasks.
proof fn lemma_completed_update(s: Seq<TaskView>, k: int, x: TaskView)
    requires
        0 <= k < s.len(),
        x.state == State::Completed,
    ensures
        without_completed(s.update(k, x)) == without_completed(s.remove(k)),
    decreases s.len(),
{
    let u = s.update(k, x);
    if k == s.len() - 1 {
        assert(u.drop_last() =~= s.remove(k));
    } else {
        assert(u.drop_last() =~= s.drop_last().update(k, x));
        assert(s.remove(k).drop_last() =~= s.drop_last().remove(k));
        assert(s.remove(k).last() == s.last());
        lemma_completed_update(s.drop_last(), k, x);
    }
}

/// The start times that cleaning keeps after task `k` is marked completed are those
/// of the other tasks that were not completed.
proof fn lemma_completed_update_timers(s: Seq<TaskView>, t: Seq<Instant>, k: int, x: TaskView)
    requires
        0 <= k < s.len(),
        s.len() == t.len(),
        x.state == State::Completed,
    ensures
        keep_timers(s.update(k, x), t) == keep_timers(s.remove(k), t.remove(k)),
    decreases s.len(),
{
    let u = s.update(k, x);
    if k == s.len() - 1 {
        assert(u.drop_last() =~= s.remove(k));
        assert(t.drop_last() =~= t.remove(k));
    } else {
        assert(u.drop_last() =~= s.drop_last().update(k, x));
        assert(s.remove(k).drop_last() =~= s.drop_last().remove(k));
        assert(t.remove(k).drop_last() =~= t.drop_last().remove(k));
        assert(s.remove(k).last() == s.last());
        assert(t.remove(k).last() == t.last());
        lemma_completed_update_timers(s.drop_last(), t.drop_last(), k, x);
    }
}

/// Reporting the task with path `p` completed leaves the old tasks other than it
/// that were not completed, in their old order and with their start times, followed
/// by new idle reduce tasks only (none when the task was a reduce task).
pub proof fn law_completion_shape(
    s: Seq<TaskView>,
    t: Seq<Instant>,
    p: Seq<char>,
    rt: ReduceType,
    nreduce: nat,
    nmap: nat,
    id: Option<i8>,
)
    requires
        first_with_path(s, p) < s.len(),
        s.len() == t.len(),
    ensures
        ({
            let k = first_with_path(s, p);
            let rest = without_completed(s.remove(k));
            let after = complete_task(s, p, rt, nreduce, nmap, id);
            &&& after.take(rest.len() as int) == rest
            &&& forall|j: int| rest.len() <= j < after.len() ==> (#[trigger] after[j]).task_type
                == TaskType::Reduce && after[j].state == State::Idle
            &&& s[k].task_type == TaskType::Reduce ==> after == rest
            &&& keep_timers(set_state_of(s, p, State::Completed), t) == keep_timers(s.remove(k), t.remove(k))
        }),
{
    lemma_first_with_path(s, p);
    let k = first_with_path(s, p);
    let x = s[k].with_state(State::Completed);
    assert(set_state_of(s, p, State::Completed) == s.update(k, x));
    lemma_completed_update(s, k, x);
    lemma_completed_update_timers(s, t, k, x);
    let rest = without_completed(s.remove(k));
    let after = complete_task(s, p, rt, nreduce, nmap, id);
    assert(after.take(rest.len() as int) =~= rest);
}

/// Dropping the tasks with path `p` keeps every other task and no task with path `p`.
proof fn lemma_without_path(u: Seq<TaskView>, p: Seq<char>)
    ensures
        forall|k: int| 0 <= k < without_path(u, p).len() ==> !(#[trigger] without_path(u, p)[k]).has_path(p),
        forall|j: int| 0 <= j < u.len() && !(#[trigger] u[j]).has_path(p) ==> without_path(u, p).contains(u[j]),
    decreases u.len(),
{
    if u.len() > 0 {
        let d = u.drop_last();
        lemma_without_path(d, p);
        let w = without_path(d, p);
        assert forall|j: int| 0 <= j < u.len() && !(#[trigger] u[j]).has_path(p) implies without_path(u, p).contains(
            u[j],
        ) by {
            if j == u.len() - 1 {
                assert(w.push(u.last())[w.len() as int] == u[j]);
            } else {
                assert(d[j] == u[j]);
                let k = choose|k: int| 0 <= k < w.len() && w[k] == d[j];
                if !u.last().has_path(p) {
                    assert(w.push(u.last())[k] == u[j]);
                }
            }
        }
        assert forall|k: int| 0 <= k < without_path(u, p).len() implies !(#[trigger] without_path(u, p)[k]).has_path(p) by {
            if !u.last().has_path(p) && k == w.len() {
                assert(w.push(u.last())[k] == u.last());
            } else if !u.last().has_path(p) {
                assert(w.push(u.last())[k] == w[k]);
            }
        }
    }
}

/// Dropping completed tasks keeps every task that is not completed.
proof fn lemma_without_completed_keeps(u: Seq<TaskView>, j: int)
    requires
        0 <= j < u.len(),
        u[j].state != State::Completed,
    ensures
        without_completed(u).contains(u[j]),
    decreases u.len(),
{
    if j == u.len() - 1 {
        let w = without_completed(u.drop_last()).push(u.last());
        assert(w[w.len() - 1] == u[j]);
    } else {
        assert(u.drop_last()[j] == u[j]);
        lemma_without_completed_keeps(u.drop_last(), j);
        let w = without_completed(u.drop_last());
        let k = choose|k: int| 0 <= k < w.len() && w[k] == u[j];
        if u.last().state != State::Completed {
            assert(w.push(u.last())[k] == u[j]);
        }
    }
}

/// Reporting path `p` touches only a task one of whose paths equals `p`: the task
/// that changes has `p` among its paths, a task none of whose paths equals `p` keeps
/// its state, and when it was not completed it is still in the list after the
/// completion is recorded.
pub proof fn law_completion_spares_other_tasks(
    s: Seq<TaskView>,
    p: Seq<char>,
    st: State,
    j: int,
    rt: ReduceType,
    nreduce: nat,
    nmap: nat,
    id: Option<i8>,
)
    requires
        0 <= j < s.len(),
        forall|m: int| 0 <= m < s[j].path.len() ==> s[j].path[m] != p,
    ensures
        first_with_path(s, p) < s.len() ==> exists|m: int|
            0 <= m < s[first_with_path(s, p)].path.len() && s[first_with_path(s, p)].path[m] == p,
        first_with_path(s, p) != j,
        set_state_of(s, p, st).len() == s.len(),
        set_state_of(s, p, st)[j] == s[j],
        s[j].state != State::Completed ==> complete_task(s, p, rt, nreduce, nmap, id).contains(s[j]),
{
    lemma_first_with_path(s, p);
    let i = first_with_path(s, p);
    if i < s.len() {
        let m = choose|m: int| 0 <= m < s[i].path.len() && s[i].path[m] == p;
        assert(s[i].path[m] == p);
    }
    if i == j {
        let m = choose|m: int| 0 <= m < s[i].path.len() && s[i].path[m] == p;
        assert(s[j].path[m] != p);
    }
    let u = set_state_of(s, p, State::Completed);
    assert(u[j] == s[j]);
    if s[j].state != State::Completed {
        lemma_without_completed_keeps(u, j);
        let rest = without_completed(u);
        let k = choose|k: int| 0 <= k < rest.len() && rest[k] == s[j];
        let after = complete_task(s, p, rt, nreduce, nmap, id);
        assert(after.take(rest.len() as int) =~= rest);
        assert(after[k] == s[j]);
    }
}

/// The traditional reduce task `j` reads, for each map task `m`, the intermediate
/// file that map task `m` writes for reduce task `j`.
pub proof fn law_reduce_reads_map_outputs(nmap: nat, j: nat, m: nat)
    requires
        m < nmap,
    ensures
        reduce_inputs(nmap, j)[m as int] == file_name(decimal(m), decimal(j)),
{
}

} // verus!
