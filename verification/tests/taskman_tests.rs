use mr::coordinator::Coordinator;
use mr::ds::MapReduceStatus;
use mr::ds::intermediate::Intermediate;
use mr::ds::task::{State, Task, TaskType};
use mr::ds::taskman::{TaskManager, TaskManagerError, TimedTask};
use mr::worker::ReduceType;
use std::time::{Duration, Instant};

fn task(paths: &[&str], state: State, ty: TaskType) -> Task {
    Task::new(paths.iter().map(|p| p.to_string()).collect(), state, ty)
}

fn state_of(tm: &mut TaskManager, p: &str) -> State {
    tm.get_task(p.to_string()).unwrap().get_state()
}

#[test]
fn task_accessors() {
    let mut t = task(&["a", "b"], State::Idle, TaskType::Reduce);
    assert_eq!(t.get_path(), vec!["a".to_string(), "b".to_string()]);
    assert_eq!(t.get_task_type(), TaskType::Reduce);
    assert_eq!(t.get_worker_id(), None);
    assert!(t.has_path(&"b".to_string()));
    assert!(!t.has_path(&"c".to_string()));
    t.set_worker(9);
    t.set_state(State::Completed);
    assert_eq!(t.get_worker_id(), Some(9));
    assert_eq!(t.get_state(), State::Completed);
    let c = t.clone();
    assert_eq!(c.get_path(), t.get_path());
    assert_eq!(c.get_worker_id(), Some(9));
}

#[test]
fn sizes_by_type_add_up() {
    let mut tm = TaskManager::new();
    tm.add_task(task(&["a"], State::Idle, TaskType::MapTask));
    tm.add_task(task(&["b"], State::Idle, TaskType::Reduce));
    tm.add_task(task(&["c"], State::Idle, TaskType::MapTask));
    assert_eq!(tm.get_size(None), tm.get_size(Some(TaskType::MapTask)) + tm.get_size(Some(TaskType::Reduce)));
    assert_eq!(tm.get_size(Some(TaskType::MapTask)), 2);
}

#[test]
fn hand_out_changes_one_task_once() {
    let mut tm = TaskManager::new();
    tm.add_task(task(&["a"], State::Idle, TaskType::MapTask));
    tm.add_task(task(&["b"], State::Idle, TaskType::MapTask));
    assert_eq!(tm.get_idle_task(7, Some(TaskType::MapTask)), Some((vec!["a".to_string()], TaskType::MapTask)));
    assert_eq!(tm.get_task_id("a".to_string()), Some(7));
    assert_eq!(tm.get_task_id("b".to_string()), None);
    assert_eq!(state_of(&mut tm, "b"), State::Idle);
    assert_eq!(tm.get_idle_task(8, Some(TaskType::MapTask)), Some((vec!["b".to_string()], TaskType::MapTask)));
    assert_eq!(tm.get_idle_task(9, None), None);
    assert_eq!(tm.get_idle_task(9, Some(TaskType::Reduce)), None);
}

#[test]
fn update_state_of_missing_task() {
    let mut tm = TaskManager::new();
    tm.add_task(task(&["a"], State::Idle, TaskType::MapTask));
    assert_eq!(tm.update_state("z".to_string(), State::Completed), None);
    assert_eq!(tm.update_state("a".to_string(), State::Completed), Some(TaskType::MapTask));
    assert!(tm.get_task("z".to_string()).is_none());
    assert_eq!(tm.get_task_id("z".to_string()), None);
}

#[test]
fn clean_and_remove() {
    let mut tm = TaskManager::new();
    tm.add_task(task(&["a"], State::Completed, TaskType::MapTask));
    tm.add_task(task(&["b"], State::Idle, TaskType::MapTask));
    tm.add_task(task(&["c", "a"], State::Completed, TaskType::Reduce));
    tm.add_task(task(&["d"], State::InProgress, TaskType::Reduce));
    tm.clean();
    assert_eq!(tm.get_size(None), 2);
    tm.clean();
    assert_eq!(tm.get_size(None), 2);
    tm.add_task(task(&["e", "b"], State::Idle, TaskType::Reduce));
    tm.remove_task("b".to_string());
    assert_eq!(tm.get_size(None), 1);
    assert_eq!(tm.get_task("d".to_string()).unwrap().get_state(), State::InProgress);
}

#[test]
fn status_follows_remaining_tasks() {
    let mut tm = TaskManager::new();
    assert_eq!(tm.status(), MapReduceStatus::Completed);
    assert!(tm.check_task_type());
    tm.add_task(task(&["a"], State::Idle, TaskType::MapTask));
    assert_eq!(tm.status(), MapReduceStatus::InProgress);
}

#[test]
fn expedited_completion_names_reduce_tasks_after_the_worker() {
    let mut tm = TaskManager::new();
    tm.add_task(task(&["in0"], State::Idle, TaskType::MapTask));
    tm.add_task(task(&["in1"], State::Idle, TaskType::MapTask));
    tm.task_completed("in0".to_string(), ReduceType::Expedited, 3, 2, Some(-4)).unwrap();
    assert_eq!(tm.get_size(Some(TaskType::MapTask)), 1);
    assert_eq!(tm.get_size(Some(TaskType::Reduce)), 3);
    for j in 0..3 {
        let t = tm.get_task(format!("mr--4-{}", j)).unwrap();
        assert_eq!(t.get_worker_id(), Some(-4));
        assert_eq!(t.get_state(), State::Idle);
        assert_eq!(t.get_task_type(), TaskType::Reduce);
    }
}

#[test]
fn traditional_completion_waits_for_the_last_map_task() {
    let mut tm = TaskManager::new();
    tm.add_task(task(&["in0"], State::Idle, TaskType::MapTask));
    tm.add_task(task(&["in1"], State::Idle, TaskType::MapTask));
    tm.task_completed("in1".to_string(), ReduceType::Traditional, 2, 3, None).unwrap();
    assert_eq!(tm.get_size(Some(TaskType::Reduce)), 0);
    tm.task_completed("in0".to_string(), ReduceType::Traditional, 2, 3, None).unwrap();
    assert_eq!(tm.get_size(Some(TaskType::MapTask)), 0);
    assert_eq!(tm.get_size(Some(TaskType::Reduce)), 2);
    let t = tm.get_task("mr-2-1".to_string()).unwrap();
    assert_eq!(t.get_path(), vec!["mr-0-1".to_string(), "mr-1-1".to_string(), "mr-2-1".to_string()]);
    assert_eq!(t.get_worker_id(), None);
    tm.task_completed("mr-0-0".to_string(), ReduceType::Expedited, 2, 3, None).unwrap();
    assert_eq!(tm.get_size(Some(TaskType::Reduce)), 1);
}

#[test]
fn completion_drops_every_completed_task() {
    let mut tm = TaskManager::new();
    tm.add_task(task(&["a"], State::Idle, TaskType::Reduce));
    tm.add_task(task(&["b"], State::Idle, TaskType::Reduce));
    tm.update_state("b".to_string(), State::Completed);
    tm.task_completed("a".to_string(), ReduceType::Traditional, 1, 1, None).unwrap();
    assert_eq!(tm.get_size(None), 0);
}

#[test]
fn timed_task_expiry() {
    let mut t = TimedTask::new(task(&["a"], State::InProgress, TaskType::MapTask));
    t.expire_if_overdue(5, 10);
    let mut tm = TaskManager::new();
    tm.add_task(task(&["a"], State::InProgress, TaskType::MapTask));
    tm.add_task(task(&["b"], State::Completed, TaskType::MapTask));
    tm.add_task(task(&["c"], State::InProgress, TaskType::MapTask));
    let start = Instant::now();
    while start.elapsed() < Duration::from_millis(20) {}
    tm.check_progress_all(Duration::from_secs(3600));
    assert_eq!(state_of(&mut tm, "a"), State::InProgress);
    tm.check_progress_all(Duration::from_millis(10));
    assert_eq!(state_of(&mut tm, "a"), State::Idle);
    assert_eq!(state_of(&mut tm, "b"), State::Completed);
    assert_eq!(state_of(&mut tm, "c"), State::Idle);
    t.reset_timer();
}

#[test]
fn error_message() {
    assert_eq!(TaskManagerError::TaskCompletedError.message(), "Task Completed Error");
}

#[test]
fn coordinator_round_trip() {
    let mut tm = TaskManager::new();
    tm.add_task(task(&["in0"], State::Idle, TaskType::MapTask));
    let mut c = Coordinator::new(tm);
    assert!(!c.is_complete());
    assert_eq!(c.echo("ping".to_string()), "ping");
    let (paths, ty) = c.get_task(1, None).unwrap();
    assert_eq!((paths, ty), (vec!["in0".to_string()], TaskType::MapTask));
    c.check_progress(Duration::from_secs(3600));
    c.completed_task("in0".to_string(), ReduceType::Traditional, 1, 1, Some(1));
    assert_eq!(c.taskman.get_size(None), 1);
    let (paths, ty) = c.get_task(2, Some(TaskType::Reduce)).unwrap();
    assert_eq!((paths, ty), (vec!["mr-0-0".to_string()], TaskType::Reduce));
    c.completed_task("mr-0-0".to_string(), ReduceType::Traditional, 1, 1, Some(2));
    assert!(c.is_complete());
}

#[test]
fn intermediate_read_after_write() {
    let mut im = Intermediate::new();
    im.insert("k".to_string(), "1".to_string());
    im.insert("j".to_string(), "2".to_string());
    im.insert("k".to_string(), "3".to_string());
    assert_eq!(im.get("k".to_string()).unwrap(), &vec!["1".to_string(), "3".to_string()]);
    assert_eq!(im.get("j".to_string()).unwrap(), &vec!["2".to_string()]);
    assert_eq!(im.len(), 2);
}

#[test]
fn coordinator_prefers_map_tasks() {
    let mut tm = TaskManager::new();
    tm.add_task(task(&["r"], State::Idle, TaskType::Reduce));
    tm.add_task(task(&["m"], State::Idle, TaskType::MapTask));
    let mut c = Coordinator::new(tm);
    assert_eq!(c.get_task(1, None), Some((vec!["m".to_string()], TaskType::MapTask)));
    assert_eq!(c.get_task(2, None), Some((vec!["r".to_string()], TaskType::Reduce)));
    assert_eq!(c.get_task(3, None), None);
}

#[test]
fn state_change_can_be_undone() {
    let mut tm = TaskManager::new();
    tm.add_task(task(&["a"], State::Idle, TaskType::MapTask));
    tm.update_state("a".to_string(), State::Completed);
    assert_eq!(tm.get_idle_task(1, None), None);
    tm.update_state("a".to_string(), State::Idle);
    assert_eq!(tm.get_idle_task(1, None), Some((vec!["a".to_string()], TaskType::MapTask)));
}

#[test]
fn progress_check_keeps_sizes() {
    let mut tm = TaskManager::new();
    tm.add_task(task(&["a"], State::InProgress, TaskType::MapTask));
    tm.add_task(task(&["b"], State::InProgress, TaskType::Reduce));
    tm.check_progress("a".to_string(), Duration::from_nanos(0));
    tm.check_progress_all(Duration::from_nanos(0));
    assert_eq!(tm.get_size(Some(TaskType::MapTask)), 1);
    assert_eq!(tm.get_size(Some(TaskType::Reduce)), 1);
    assert_eq!(state_of(&mut tm, "a"), State::Idle);
    assert_eq!(state_of(&mut tm, "b"), State::Idle);
}

#[test]
fn reduce_tasks_read_what_map_tasks_write() {
    let mut tm = TaskManager::new();
    tm.add_task(task(&["in"], State::Idle, TaskType::MapTask));
    tm.task_completed("in".to_string(), ReduceType::Traditional, 3, 4, None).unwrap();
    for j in 0..3 {
        let name = mr::names::intermediate_file_name(0, j);
        let paths = tm.get_task(name).unwrap().get_path();
        let expected: Vec<String> = (0..4).map(|i| mr::names::intermediate_file_name(i, j)).collect();
        assert_eq!(paths, expected);
    }
}

#[test]
fn task_manager_clone_copies_tasks() {
    let mut tm = TaskManager::new();
    tm.add_task(task(&["a"], State::Idle, TaskType::MapTask));
    let mut copy = tm.clone();
    tm.update_state("a".to_string(), State::Completed);
    assert_eq!(state_of(&mut copy, "a"), State::Idle);
    assert_eq!(copy.get_size(None), 1);
}
