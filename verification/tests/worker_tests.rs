use mr::ds::KeyValue;
use mr::ds::task::TaskType;
use mr::plugin::ReduceFunction;
use mr::wc::Reduce;
use mr::worker::{
    group_pairs, output_line, output_lines, partition, present_inputs, reduce_lines, reduce_task_number, ReduceType,
    WorkStep, Worker,
};
use std::hash::{DefaultHasher, Hash, Hasher};

fn kv(k: &str, v: &str) -> KeyValue {
    KeyValue::new(k.to_string(), v.to_string())
}

fn std_hash(s: &str) -> u64 {
    let mut h = DefaultHasher::new();
    s.to_string().hash(&mut h);
    h.finish()
}

#[test]
fn worker_settings() {
    let w = Worker::new(3, ReduceType::Traditional, 4, 7);
    assert_eq!(w.get_id(), 3);
    assert_eq!(w.get_reduce_type(), ReduceType::Traditional);
    assert_eq!(w.get_nreduce(), 4);
    assert_eq!(w.get_nmap(), 7);
}

#[test]
fn task_requests_follow_the_schedule() {
    let w = Worker::new(1, ReduceType::Expedited, 2, 2);
    assert_eq!(w.task_requests(), vec![None]);
    let w = Worker::new(1, ReduceType::Traditional, 2, 2);
    assert_eq!(w.task_requests(), vec![Some(TaskType::MapTask), Some(TaskType::Reduce)]);
}

#[test]
fn partition_sends_each_key_to_its_hash_bucket() {
    let kva = vec![kv("a", "1"), kv("b", "1"), kv("a", "2"), kv("c", "1"), kv("dd", "9")];
    let n = 3;
    let buckets = partition(&kva, n);
    assert_eq!(buckets.len(), n);
    let total: usize = buckets.iter().map(|b| b.len()).sum();
    assert_eq!(total, kva.len());
    for (b, bucket) in buckets.iter().enumerate() {
        for item in bucket {
            assert_eq!(std_hash(&item.key) as usize % n, b);
        }
        let expected: Vec<(String, String)> = kva
            .iter()
            .filter(|x| std_hash(&x.key) as usize % n == b)
            .map(|x| (x.key.clone(), x.value.clone()))
            .collect();
        let got: Vec<(String, String)> = bucket.iter().map(|x| (x.key.clone(), x.value.clone())).collect();
        assert_eq!(got, expected);
    }
}

#[test]
fn partition_into_one_bucket_keeps_everything() {
    let kva = vec![kv("x", "1"), kv("y", "2")];
    let buckets = partition(&kva, 1);
    assert_eq!(buckets.len(), 1);
    assert_eq!(buckets[0].len(), 2);
    assert_eq!(buckets[0][1].key, "y");
}

#[test]
fn prepare_for_reduce_names_the_files() {
    let w = Worker::new(0, ReduceType::Expedited, 2, 1);
    let out = w.prepare_for_reduce(5, vec![kv("a", "1"), kv("b", "1")]);
    assert_eq!(out.len(), 2);
    assert_eq!(out[0].0, "mr-5-0");
    assert_eq!(out[1].0, "mr-5-1");
    assert_eq!(out[0].1.len() + out[1].1.len(), 2);
}

#[test]
fn prepare_for_reduce_without_reduce_tasks_or_pairs() {
    let w = Worker::new(0, ReduceType::Expedited, 0, 1);
    assert!(w.prepare_for_reduce(5, vec![]).is_empty());
}

#[test]
fn reduce_task_numbers() {
    assert_eq!(reduce_task_number(&"mr-12-3".to_string()), Some("3".to_string()));
    assert_eq!(reduce_task_number(&"/tmp/mr-1-45".to_string()), Some("45".to_string()));
    assert_eq!(reduce_task_number(&"mr-x-3".to_string()), None);
    assert_eq!(reduce_task_number(&"input.txt".to_string()), None);
}

#[test]
fn grouping_keeps_first_seen_order() {
    let mut im = group_pairs(&vec![kv("b", "1"), kv("a", "2"), kv("b", "3")]);
    assert_eq!(im.len(), 2);
    let (k0, v0) = im.entry(0);
    assert_eq!((k0.as_str(), v0.clone()), ("b", vec!["1".to_string(), "3".to_string()]));
    let (k1, v1) = im.entry(1);
    assert_eq!((k1.as_str(), v1.clone()), ("a", vec!["2".to_string()]));
    assert_eq!(im.get("c".to_string()), None);
}

#[test]
fn output_lines_are_key_space_result() {
    assert_eq!(output_line(&"cat".to_string(), &"4".to_string()), "cat 4\n");
    let im = group_pairs(&vec![kv("x", "1"), kv("y", "1"), kv("x", "1")]);
    let lines = output_lines(&im, &vec!["2".to_string(), "1".to_string()]);
    assert_eq!(lines, vec!["x 2\n".to_string(), "y 1\n".to_string()]);
    let lines = reduce_lines(&Reduce, &im);
    assert_eq!(lines, vec!["x 2\n".to_string(), "y 1\n".to_string()]);
}

#[test]
fn plan_follows_the_reply() {
    let w = Worker::new(4, ReduceType::Expedited, 2, 2);
    assert!(matches!(w.plan(None), WorkStep::Nothing));
    match w.plan(Some((vec!["in.txt".to_string()], TaskType::MapTask))) {
        WorkStep::MapStep { inputs, map_task_num, report } => {
            assert_eq!(inputs, vec!["in.txt".to_string()]);
            assert_eq!(map_task_num, 4);
            assert_eq!(report, Some("in.txt".to_string()));
        }
        _ => panic!("expected a map step"),
    }
    match w.plan(Some((vec!["mr-0-1".to_string(), "mr-1-1".to_string()], TaskType::Reduce))) {
        WorkStep::ReduceStep { inputs, report } => {
            assert_eq!(inputs.len(), 2);
            assert_eq!(report, Some("mr-0-1".to_string()));
        }
        _ => panic!("expected a reduce step"),
    }
    match w.plan(Some((vec![], TaskType::Reduce))) {
        WorkStep::ReduceStep { report, .. } => assert_eq!(report, None),
        _ => panic!("expected a reduce step"),
    }
    assert_eq!(w.round_status(&vec![WorkStep::Nothing, WorkStep::Nothing]), mr::ds::MapReduceStatus::Completed);
    let busy = vec![WorkStep::Nothing, w.plan(Some((vec![], TaskType::Reduce)))];
    assert_eq!(w.round_status(&busy), mr::ds::MapReduceStatus::InProgress);
    let paths = vec!["a".to_string(), "b".to_string(), "c".to_string()];
    assert_eq!(present_inputs(&paths, &vec![true, false, true]), vec!["a".to_string(), "c".to_string()]);
}

#[test]
fn reduce_lines_pass_each_key_its_values() {
    let im = group_pairs(&vec![kv("x", "a"), kv("y", "b"), kv("x", "c")]);
    assert_eq!(Reduce.reduce("x".to_string(), vec!["a".to_string(), "c".to_string()]), "2");
    assert_eq!(reduce_lines(&Reduce, &im), vec!["x 2\n".to_string(), "y 1\n".to_string()]);
}

#[test]
fn traditional_plan_numbers_outputs_by_worker() {
    let w = Worker::new(1, ReduceType::Traditional, 2, 3);
    match w.plan(Some((vec!["in.txt".to_string()], TaskType::MapTask))) {
        WorkStep::MapStep { map_task_num, .. } => assert_eq!(map_task_num, 1),
        _ => panic!("expected a map step"),
    }
}
