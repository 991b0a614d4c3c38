//! A unit of work that the coordinator hands to a worker.
use vstd::prelude::*;

verus! {

/// Whether a task maps an input file or reduces intermediate files.
#[derive(PartialEq, Eq, Structural, Debug, Clone, Copy)]
pub enum TaskType {
    MapTask,
    Reduce,
}

/// Where a task stands in its life cycle.
#[derive(PartialEq, Eq, Structural, Debug, Clone, Copy)]
pub enum State {
    Idle,
    InProgress,
    Completed,
}

/// The mathematical value of a [`Task`].
pub struct TaskView {
    pub path: Seq<Seq<char>>,
    pub worker: Option<i8>,
    pub state: State,
    pub task_type: TaskType,
}

impl TaskView {
    /// The same task in another state.
    pub open spec fn with_state(self, state: State) -> TaskView {
        TaskView { state, ..self }
    }

    /// The same task assigned to another worker.
    pub open spec fn with_worker(self, worker: i8) -> TaskView {
        TaskView { worker: Some(worker), ..self }
    }

    /// One of the task's paths is `p`.
    pub open spec fn has_path(self, p: Seq<char>) -> bool {
        self.path.contains(p)
    }
}

/// A task has path `p` exactly when one of its paths equals `p`: a path that `p`
/// begins with, or that begins with `p`, is not enough.
pub proof fn law_has_path_is_exact(t: TaskView, p: Seq<char>, q: Seq<char>)
    ensures
        t.has_path(p) <==> exists|k: int| 0 <= k < t.path.len() && t.path[k] == p,
        t.path == seq![q] ==> (t.has_path(p) <==> q == p),
{
    if t.path == seq![q] {
        if q == p {
            assert(t.path[0] == p);
        }
    }
}

/// A Task contains information about the tasks that a Worker will be assigned to
/// complete by the Coordinator: the paths of its input files, the worker it was last
/// given to, its state and its type.
#[derive(Debug)]
pub struct Task {
    path: Vec<String>,
    worker: Option<i8>,
    state: State,
    task_type: TaskType,
}

impl View for Task {
    type V = TaskView;

    closed spec fn view(&self) -> TaskView {
        TaskView {
            path: self.path.deep_view(),
            worker: self.worker,
            state: self.state,
            task_type: self.task_type,
        }
    }
}

impl Clone for Task {
    fn clone(&self) -> (res: Self)
        ensures
            res@ == self@,
    {
        let path = self.path.clone();
        proof {
            assert(path.deep_view() =~= self.path.deep_view());
        }
        Task { path, worker: self.worker, state: self.state, task_type: self.task_type }
    }
}

impl Task {
    /// A task with the given paths, state and type, given to no worker yet.
    pub fn new(path: Vec<String>, state: State, task_type: TaskType) -> (t: Self)
        ensures
            t@ == (TaskView { path: path.deep_view(), worker: None, state, task_type }),
    {
        Task { path, worker: None, state, task_type }
    }

    pub fn set_state(&mut self, state: State)
        ensures
            final(self)@ == old(self)@.with_state(state),
    {
        self.state = state;
    }

    pub fn get_state(&self) -> (s: State)
        ensures
            s == self@.state,
    {
        self.state
    }

    pub fn get_path(&self) -> (p: Vec<String>)
        ensures
            p.deep_view() == self@.path,
    {
        let p = self.path.clone();
        proof {
            assert(p.deep_view() =~= self.path.deep_view());
        }
        p
    }

    pub fn get_task_type(&self) -> (t: TaskType)
        ensures
            t == self@.task_type,
    {
        self.task_type
    }

    pub fn set_worker(&mut self, worker: i8)
        ensures
            final(self)@ == old(self)@.with_worker(worker),
    {
        self.worker = Some(worker);
    }

    /// The worker the task was last given to, if any.
    pub fn get_worker_id(&self) -> (w: Option<i8>)
        ensures
            w == self@.worker,
    {
        self.worker
    }

    /// Whether `p` is one of the task's paths.
    pub fn has_path(&self, p: &String) -> (b: bool)
        ensures
            b == self@.has_path(p@),
            b <==> exists|k: int| 0 <= k < self@.path.len() && self@.path[k] == p@,
    {
        let mut i: usize = 0;
        while i < self.path.len()
            invariant
                0 <= i <= self.path.len(),
                forall|j: int| 0 <= j < i ==> self.path@[j]@ != p@,
            decreases self.path.len() - i,
        {
            if self.path[i] == *p {
                proof {
                    assert(self@.path[i as int] == p@);
                }
                return true;
            }
            i = i + 1;
        }
        proof {
            if self@.path.contains(p@) {
                let k = choose|k: int| 0 <= k < self@.path.len() && self@.path[k] == p@;
                assert(self.path@[k]@ == p@);
            }
        }
        false
    }
}

} // verus!
