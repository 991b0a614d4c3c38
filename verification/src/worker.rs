//! What a worker computes: which tasks it asks for, how map output is partitioned
//! among the reduce tasks, and how a reduce task groups its pairs and writes its
//! output lines.
use vstd::prelude::*;
use crate::ds::{pairs_view, KeyValue, MapReduceStatus};
use crate::ds::intermediate::{insert_value, keys_distinct, law_insert_keeps_keys_distinct, law_insert_then_lookup, lookup, Group, Intermediate};
use crate::ds::task::TaskType;
use crate::names::{decimal, file_name, intermediate_file_name};
use crate::plugin::ReduceFunction;
use crate::text::{capture_by, regex_capture};

verus! {

/// When reduce tasks are scheduled: as soon as a map task completes (`Expedited`),
/// or once no map task remains (`Traditional`).
#[derive(PartialEq, Eq, Structural, Debug, Clone, Copy)]
pub enum ReduceType {
    Expedited,
    Traditional,
}

/// The hash of a key under `std::hash::DefaultHasher` as `DefaultHasher::new` makes
/// it (its keys are fixed, not drawn per process).
pub uninterp spec fn key_hash(key: Seq<char>) -> u64;

/// Hashes `key` with `std::hash::BuildHasher::hash_one` on the builder of
/// `std::hash::DefaultHasher` (the same as `DefaultHasher::new`, `Hash::hash` and
/// `Hasher::finish`). The result is named, not described: it is `key_hash(key)`.
#[verifier::external_body]
fn hash(key: &String) -> (h: u64)
    ensures
        h == key_hash(key@),
{
    std::hash::BuildHasher::hash_one(&std::hash::BuildHasherDefault::<std::hash::DefaultHasher>::default(), key)
}

/// The reduce task that receives the pairs with key `key`: the hash, taken as a
/// `usize`, modulo the number of reduce tasks.
pub open spec fn bucket_of(key: Seq<char>, nreduce: nat) -> nat {
    ((key_hash(key) as usize) as nat) % nreduce
}

/// The pairs of `kva` that reduce task `b` receives, in their order.
pub open spec fn bucket(kva: Seq<(Seq<char>, Seq<char>)>, b: nat, nreduce: nat) -> Seq<(Seq<char>, Seq<char>)>
    decreases kva.len(),
{
    if kva.len() == 0 {
        kva
    } else if bucket_of(kva.last().0, nreduce) == b {
        bucket(kva.drop_last(), b, nreduce).push(kva.last())
    } else {
        bucket(kva.drop_last(), b, nreduce)
    }
}

/// The grouping of `kva` by key: the values of each key in their order, keys in the
/// order they first occur.
pub open spec fn group_all(kva: Seq<(Seq<char>, Seq<char>)>) -> Seq<Group>
    decreases kva.len(),
{
    if kva.len() == 0 {
        Seq::empty()
    } else {
        insert_value(group_all(kva.drop_last()), kva.last().0, kva.last().1)
    }
}

/// The pattern of an intermediate file name, whose group `reduce_num` is the number
/// of the reduce task that reads it.
pub const REDUCE_FILE_PATTERN: &'static str = r"mr-[0-9]+-(?<reduce_num>[0-9]+)";

/// The name of the group of `REDUCE_FILE_PATTERN` that holds the reduce task number.
pub const REDUCE_NUM_GROUP: &'static str = "reduce_num";

/// The reduce task number in an intermediate file name, as the pattern captures it.
pub open spec fn reduce_number_of(filename: Seq<char>) -> Option<Seq<char>> {
    match regex_capture(REDUCE_FILE_PATTERN@, filename, REDUCE_NUM_GROUP@) {
        Some(Some(n)) => Some(n),
        _ => None,
    }
}

/// A line of a reduce task's output: the key, a space, the reduce result and a line
/// break.
pub open spec fn output_line_of(key: Seq<char>, result: Seq<char>) -> Seq<char> {
    key + seq![' '] + result + seq!['\n']
}

/// An output line holds the key, then one space, then the whole reduce result, then
/// one line break, and nothing else; so a line and its key give the result back.
pub proof fn law_output_line_shape(key: Seq<char>, result: Seq<char>, other: Seq<char>)
    ensures
        output_line_of(key, result).len() == key.len() + result.len() + 2,
        output_line_of(key, result).subrange(0, key.len() as int) == key,
        output_line_of(key, result)[key.len() as int] == ' ',
        output_line_of(key, result).subrange(key.len() + 1int, key.len() + 1int + result.len()) == result,
        output_line_of(key, result).last() == '\n',
        output_line_of(key, result) == output_line_of(key, other) ==> result == other,
{
    let line = output_line_of(key, result);
    assert(line.subrange(0, key.len() as int) =~= key);
    assert(line.subrange(key.len() + 1int, key.len() + 1int + result.len()) =~= result);
    if line == output_line_of(key, other) {
        let o = output_line_of(key, other);
        assert(o.subrange(key.len() + 1int, key.len() + 1int + other.len()) =~= other);
    }
}

/// The mathematical value of a [`Worker`].
pub struct WorkerView {
    pub worker_id: i8,
    pub reduce_type: ReduceType,
    pub nreduce: nat,
    pub nmap: nat,
}

/// A worker's settings: its id, the reduce schedule, and the numbers of reduce and
/// map tasks.
pub struct Worker {
    worker_id: i8,
    reduce_type: ReduceType,
    nreduce: usize,
    nmap: usize,
}

impl View for Worker {
    type V = WorkerView;

    closed spec fn view(&self) -> WorkerView {
        WorkerView {
            worker_id: self.worker_id,
            reduce_type: self.reduce_type,
            nreduce: self.nreduce as nat,
            nmap: self.nmap as nat,
        }
    }
}

impl Worker {
    pub fn new(worker_id: i8, reduce_type: ReduceType, nreduce: usize, nmap: usize) -> (w: Self)
        ensures
            w@ == (WorkerView { worker_id, reduce_type, nreduce: nreduce as nat, nmap: nmap as nat }),
    {
        Worker { worker_id, reduce_type, nreduce, nmap }
    }

    pub fn get_id(&self) -> (id: i8)
        ensures
            id == self@.worker_id,
    {
        self.worker_id
    }

    pub fn get_reduce_type(&self) -> (rt: ReduceType)
        ensures
            rt == self@.reduce_type,
    {
        self.reduce_type
    }

    pub fn get_nreduce(&self) -> (n: usize)
        ensures
            n == self@.nreduce,
    {
        self.nreduce
    }

    pub fn get_nmap(&self) -> (n: usize)
        ensures
            n == self@.nmap,
    {
        self.nmap
    }

    /// What the worker does with the coordinator's answer to one request: nothing
    /// when no task was handed out; otherwise it runs the task on each of its paths
    /// and then reports the task completed by its first path. The intermediate files
    /// of a map task are numbered by the worker's id, the number that the expedited
    /// schedule's reduce tasks read; the traditional schedule's reduce tasks read the
    /// numbers `0..nmap`, so under it a worker that maps must have an id below `nmap`.
    pub fn plan(&self, reply: Option<(Vec<String>, TaskType)>) -> (step: WorkStep)
        requires
            reply matches Some((_, TaskType::MapTask)) ==> self@.worker_id >= 0,
            reply matches Some((_, TaskType::MapTask)) && self@.reduce_type == ReduceType::Traditional
                ==> self@.worker_id < self@.nmap,
        ensures
            (match reply {
                None => step is Nothing,
                Some((paths, TaskType::MapTask)) => step matches WorkStep::MapStep { inputs, map_task_num, report }
                    && inputs.deep_view() == paths.deep_view() && map_task_num == self@.worker_id
                    && report_of(report) == first_path(paths.deep_view()),
                Some((paths, TaskType::Reduce)) => step matches WorkStep::ReduceStep { inputs, report }
                    && inputs.deep_view() == paths.deep_view()
                    && report_of(report) == first_path(paths.deep_view()),
            }),
    {
        match reply {
            None => WorkStep::Nothing,
            Some((paths, ty)) => {
                let report = if paths.len() > 0 {
                    Some(paths[0].clone())
                } else {
                    None
                };
                match ty {
                    TaskType::MapTask => {
                        let map_task_num: usize = self.worker_id as usize;
                        WorkStep::MapStep { inputs: paths, map_task_num, report }
                    },
                    TaskType::Reduce => WorkStep::ReduceStep { inputs: paths, report },
                }
            },
        }
    }

    /// The status after one round of requests: complete when no request got a task.
    pub fn round_status(&self, steps: &Vec<WorkStep>) -> (st: MapReduceStatus)
        ensures
            st == (if forall|k: int| 0 <= k < steps@.len() ==> (#[trigger] steps@[k]) is Nothing {
                MapReduceStatus::Completed
            } else {
                MapReduceStatus::InProgress
            }),
    {
        let mut i: usize = 0;
        while i < steps.len()
            invariant
                0 <= i <= steps.len(),
                forall|k: int| 0 <= k < i ==> (#[trigger] steps@[k]) is Nothing,
            decreases steps.len() - i,
        {
            match &steps[i] {
                WorkStep::Nothing => {},
                _ => {
                    return MapReduceStatus::InProgress;
                },
            }
            i = i + 1;
        }
        MapReduceStatus::Completed
    }

    /// The task types the worker asks the coordinator for, in order: any type under
    /// the expedited schedule; a map task, then a reduce task, under the traditional
    /// one.
    pub fn task_requests(&self) -> (r: Vec<Option<TaskType>>)
        ensures
            r@ == (match self@.reduce_type {
                ReduceType::Expedited => seq![None::<TaskType>],
                ReduceType::Traditional => seq![Some(TaskType::MapTask), Some(TaskType::Reduce)],
            }),
    {
        let mut r: Vec<Option<TaskType>> = Vec::new();
        match self.reduce_type {
            ReduceType::Expedited => {
                r.push(None);
            },
            ReduceType::Traditional => {
                r.push(Some(TaskType::MapTask));
                r.push(Some(TaskType::Reduce));
            },
        }
        proof {
            assert(r@ =~= (match self@.reduce_type {
                ReduceType::Expedited => seq![None::<TaskType>],
                ReduceType::Traditional => seq![Some(TaskType::MapTask), Some(TaskType::Reduce)],
            }));
        }
        r
    }

    /// Prepares the output of map task `map_task_num` for the reduce tasks: for each
    /// reduce task `b`, the name `mr-<map_task_num>-<b>` of its intermediate file and
    /// the pairs whose key hashes to `b`.
    pub fn prepare_for_reduce(&self, map_task_num: usize, kva: Vec<KeyValue>) -> (r: Vec<(String, Vec<KeyValue>)>)
        requires
            self@.nreduce > 0 || kva.len() == 0,
        ensures
            r.len() == self@.nreduce,
            forall|b: int|
                0 <= b < r.len() ==> (#[trigger] r@[b]).0@ == file_name(
                    decimal(map_task_num as nat),
                    decimal(b as nat),
                ) && pairs_view(r@[b].1@) == bucket(pairs_view(kva@), b as nat, self@.nreduce),
    {
        let buckets = partition(&kva, self.nreduce);
        let mut r: Vec<(String, Vec<KeyValue>)> = Vec::new();
        let mut b: usize = 0;
        while b < self.nreduce
            invariant
                0 <= b <= self.nreduce,
                buckets.len() == self.nreduce,
                forall|c: int|
                    0 <= c < buckets.len() ==> pairs_view((#[trigger] buckets@[c])@) == bucket(
                        pairs_view(kva@),
                        c as nat,
                        self@.nreduce,
                    ),
                r.len() == b,
                forall|c: int|
                    0 <= c < b ==> (#[trigger] r@[c]).0@ == file_name(
                        decimal(map_task_num as nat),
                        decimal(c as nat),
                    ) && pairs_view(r@[c].1@) == bucket(pairs_view(kva@), c as nat, self@.nreduce),
            decreases self.nreduce - b,
        {
            let name = intermediate_file_name(map_task_num, b);
            let items = clone_pairs(&buckets[b]);
            r.push((name, items));
            b = b + 1;
        }
        r
    }
}

/// What a worker does with one answer of the coordinator.
pub enum WorkStep {
    /// No task was handed out.
    Nothing,
    /// Map each input, writing the output as map task `map_task_num`, then report the
    /// task completed by `report`.
    MapStep { inputs: Vec<String>, map_task_num: usize, report: Option<String> },
    /// Reduce each input that exists, then report the task completed by `report`.
    ReduceStep { inputs: Vec<String>, report: Option<String> },
}

/// The path by which a task is reported completed: its first one, if any.
pub open spec fn first_path(paths: Seq<Seq<char>>) -> Option<Seq<char>> {
    if paths.len() > 0 {
        Some(paths[0])
    } else {
        None
    }
}

/// The value of an optional path.
pub open spec fn report_of(report: Option<String>) -> Option<Seq<char>> {
    match report {
        Some(p) => Some(p@),
        None => None,
    }
}

/// The paths whose file exists, in their order.
pub open spec fn present(paths: Seq<Seq<char>>, exists: Seq<bool>) -> Seq<Seq<char>>
    decreases paths.len(),
{
    if paths.len() == 0 || exists.len() == 0 {
        Seq::empty()
    } else if exists.last() {
        present(paths.drop_last(), exists.drop_last()).push(paths.last())
    } else {
        present(paths.drop_last(), exists.drop_last())
    }
}

/// The reduce inputs to read: those whose file exists (`exists[k]` tells of
/// `paths[k]`); the others were already reduced and removed.
pub fn present_inputs(paths: &Vec<String>, exists: &Vec<bool>) -> (r: Vec<String>)
    requires
        paths.len() == exists.len(),
    ensures
        r.deep_view() == present(paths.deep_view(), exists@),
{
    let ghost pv = paths.deep_view();
    let mut r: Vec<String> = Vec::new();
    let mut i: usize = 0;
    while i < paths.len()
        invariant
            0 <= i <= paths.len(),
            paths.len() == exists.len(),
            pv == paths.deep_view(),
            r.deep_view() == present(pv.take(i as int), exists@.take(i as int)),
        decreases paths.len() - i,
    {
        proof {
            assert(pv.take(i + 1).drop_last() =~= pv.take(i as int));
            assert(exists@.take(i + 1).drop_last() =~= exists@.take(i as int));
            assert(pv.take(i + 1).last() == paths@[i as int]@);
        }
        if exists[i] {
            let ghost prev = r.deep_view();
            r.push(paths[i].clone());
            proof {
                assert(r.deep_view() =~= prev.push(paths@[i as int]@));
            }
        }
        i = i + 1;
    }
    proof {
        assert(pv.take(i as int) =~= pv);
        assert(exists@.take(i as int) =~= exists@);
    }
    r
}

/// Pairs with the same key always go to the same reduce task, one below the number
/// of reduce tasks.
pub proof fn law_same_key_same_bucket(k1: Seq<char>, k2: Seq<char>, nreduce: nat)
    requires
        nreduce > 0,
    ensures
        k1 == k2 ==> bucket_of(k1, nreduce) == bucket_of(k2, nreduce),
        bucket_of(k1, nreduce) < nreduce,
{
}

/// A copy of a sequence of pairs.
fn clone_pairs(kva: &Vec<KeyValue>) -> (r: Vec<KeyValue>)
    ensures
        pairs_view(r@) == pairs_view(kva@),
{
    let mut r: Vec<KeyValue> = Vec::new();
    let mut i: usize = 0;
    while i < kva.len()
        invariant
            0 <= i <= kva.len(),
            r@.len() == i,
            forall|k: int| 0 <= k < i ==> (#[trigger] r@[k])@ == kva@[k]@,
        decreases kva.len() - i,
    {
        r.push(kva[i].clone());
        i = i + 1;
    }
    proof {
        assert(pairs_view(r@) =~= pairs_view(kva@));
    }
    r
}

/// Splits `kva` among `nreduce` reduce tasks: bucket `b` holds the pairs whose key
/// hashes to `b` modulo `nreduce`, in their order.
pub fn partition(kva: &Vec<KeyValue>, nreduce: usize) -> (r: Vec<Vec<KeyValue>>)
    requires
        nreduce > 0 || kva.len() == 0,
    ensures
        r.len() == nreduce,
        forall|b: int|
            0 <= b < nreduce ==> pairs_view((#[trigger] r@[b])@) == bucket(pairs_view(kva@), b as nat, nreduce as nat),
{
    let mut r: Vec<Vec<KeyValue>> = Vec::new();
    let mut b: usize = 0;
    while b < nreduce
        invariant
            0 <= b <= nreduce,
            r.len() == b,
            forall|c: int| 0 <= c < b ==> (#[trigger] r@[c])@.len() == 0,
        decreases nreduce - b,
    {
        r.push(Vec::new());
        b = b + 1;
    }
    let ghost kv = pairs_view(kva@);
    let mut i: usize = 0;
    while i < kva.len()
        invariant
            0 <= i <= kva.len(),
            nreduce > 0 || kva.len() == 0,
            kv == pairs_view(kva@),
            r.len() == nreduce,
            forall|c: int|
                0 <= c < nreduce ==> pairs_view((#[trigger] r@[c])@) == bucket(kv.take(i as int), c as nat, nreduce as nat),
        decreases kva.len() - i,
    {
        let h = hash(&kva[i].key);
        let target: usize = (h as usize) % nreduce;
        let ghost before = r@;
        r[target].push(kva[i].clone());
        proof {
            assert(kv.take(i + 1).drop_last() =~= kv.take(i as int));
            assert(kv.take(i + 1).last() == kva@[i as int]@);
            assert forall|c: int| 0 <= c < nreduce implies pairs_view((#[trigger] r@[c])@) == bucket(
                kv.take(i + 1),
                c as nat,
                nreduce as nat,
            ) by {
                if c == target {
                    assert(pairs_view(r@[c]@) =~= pairs_view(before[c]@).push(kva@[i as int]@));
                } else {
                    assert(r@[c] == before[c]);
                }
            }
        }
        i = i + 1;
    }
    proof {
        assert(kv.take(i as int) =~= kv);
    }
    r
}

/// The reduce task number in an intermediate file name; `None` when the name does
/// not match the pattern.
pub fn reduce_task_number(filename: &String) -> (r: Option<String>)
    ensures
        (match r {
            Some(n) => reduce_number_of(filename@) == Some(n@),
            None => reduce_number_of(filename@) is None,
        }),
{
    match capture_by(REDUCE_FILE_PATTERN, filename.as_str(), REDUCE_NUM_GROUP) {
        Some(Some(n)) => Some(n),
        _ => None,
    }
}

/// Groups the values of the pairs by key.
pub fn group_pairs(kva: &Vec<KeyValue>) -> (im: Intermediate)
    ensures
        im@ == group_all(pairs_view(kva@)),
{
    let ghost kv = pairs_view(kva@);
    let mut im = Intermediate::new();
    let mut i: usize = 0;
    while i < kva.len()
        invariant
            0 <= i <= kva.len(),
            kv == pairs_view(kva@),
            im@ == group_all(kv.take(i as int)),
        decreases kva.len() - i,
    {
        proof {
            assert(kv.take(i + 1).drop_last() =~= kv.take(i as int));
            assert(kv.take(i + 1).last() == kva@[i as int]@);
        }
        im.insert(kva[i].key.clone(), kva[i].value.clone());
        i = i + 1;
    }
    proof {
        assert(kv.take(i as int) =~= kv);
    }
    im
}

/// A line of a reduce task's output.
pub fn output_line(key: &String, result: &String) -> (line: String)
    ensures
        line@ == output_line_of(key@, result@),
        line@.len() == key@.len() + result@.len() + 2,
        line@.subrange(0, key@.len() as int) == key@,
        line@[key@.len() as int] == ' ',
        line@.subrange(key@.len() + 1int, key@.len() + 1int + result@.len()) == result@,
        line@.last() == '\n',
{
    proof {
        reveal_strlit(" ");
        reveal_strlit("\n");
    }
    let mut line = String::from_str(key.as_str());
    line.append(" ");
    line.append(result.as_str());
    line.append("\n");
    proof {
        assert(line@ =~= output_line_of(key@, result@));
        law_output_line_shape(key@, result@, result@);
    }
    line
}

/// The output lines of a reduce task, given the result of the reduce function for
/// each key of the grouping, in the grouping's order.
pub fn output_lines(im: &Intermediate, results: &Vec<String>) -> (lines: Vec<String>)
    requires
        results.len() == im@.len(),
    ensures
        lines.len() == im@.len(),
        forall|i: int| 0 <= i < lines.len() ==> (#[trigger] lines@[i])@ == output_line_of(im@[i].0, results@[i]@),
{
    let mut lines: Vec<String> = Vec::new();
    let mut i: usize = 0;
    while i < im.len()
        invariant
            0 <= i <= im@.len(),
            results.len() == im@.len(),
            lines.len() == i,
            forall|k: int| 0 <= k < i ==> (#[trigger] lines@[k])@ == output_line_of(im@[k].0, results@[k]@),
        decreases im@.len() - i,
    {
        let (key, _values) = im.entry(i);
        lines.push(output_line(key, &results[i]));
        i = i + 1;
    }
    lines
}

/// The output lines of a reduce task: the reduce function applied to each key of the
/// grouping and its values, in the grouping's order.
pub fn reduce_lines<R: ReduceFunction>(f: &R, im: &Intermediate) -> (lines: Vec<String>)
    ensures
        lines.len() == im@.len(),
        forall|i: int|
            0 <= i < lines.len() ==> (#[trigger] lines@[i])@ == output_line_of(
                im@[i].0,
                f.reduce_spec(im@[i].0, im@[i].1),
            ),
{
    let mut results: Vec<String> = Vec::new();
    let mut i: usize = 0;
    while i < im.len()
        invariant
            0 <= i <= im@.len(),
            results.len() == i,
            forall|k: int| 0 <= k < i ==> (#[trigger] results@[k])@ == f.reduce_spec(im@[k].0, im@[k].1),
        decreases im@.len() - i,
    {
        let (key, values) = im.entry(i);
        let k = key.clone();
        let vs = values.clone();
        proof {
            assert(vs.deep_view() =~= values.deep_view());
        }
        results.push(f.reduce(k, vs));
        i = i + 1;
    }
    output_lines(im, &results)
}

/// The values of the pairs of `kva` whose key is `key`, in their order.
pub open spec fn values_of(kva: Seq<(Seq<char>, Seq<char>)>, key: Seq<char>) -> Seq<Seq<char>>
    decreases kva.len(),
{
    if kva.len() == 0 {
        Seq::empty()
    } else if kva.last().0 == key {
        values_of(kva.drop_last(), key).push(kva.last().1)
    } else {
        values_of(kva.drop_last(), key)
    }
}

/// The number of pairs in the first `m` buckets.
pub open spec fn bucket_total(kva: Seq<(Seq<char>, Seq<char>)>, nreduce: nat, m: nat) -> nat
    decreases m,
{
    if m == 0 {
        0
    } else {
        bucket_total(kva, nreduce, (m - 1) as nat) + bucket(kva, (m - 1) as nat, nreduce).len()
    }
}

/// Grouping gathers under each key exactly the values of the pairs with that key, in
/// their order, and no key gets two entries.
pub proof fn law_grouping_collects_values(kva: Seq<(Seq<char>, Seq<char>)>, key: Seq<char>)
    ensures
        lookup(group_all(kva), key) == (if values_of(kva, key).len() == 0 {
            None::<Seq<Seq<char>>>
        } else {
            Some(values_of(kva, key))
        }),
        keys_distinct(group_all(kva)),
    decreases kva.len(),
{
    if kva.len() > 0 {
        let d = kva.drop_last();
        law_grouping_collects_values(d, key);
        law_insert_then_lookup(group_all(d), kva.last().0, kva.last().1, key);
        law_insert_keeps_keys_distinct(group_all(d), kva.last().0, kva.last().1);
        if kva.last().0 == key && values_of(d, key).len() == 0 {
            assert(values_of(d, key).push(kva.last().1) =~= seq![kva.last().1]);
        }
    }
}

/// Every pair in bucket `b` is one whose key hashes to `b`.
pub proof fn law_bucket_members(kva: Seq<(Seq<char>, Seq<char>)>, b: nat, nreduce: nat)
    ensures
        forall|k: int| 0 <= k < bucket(kva, b, nreduce).len() ==> bucket_of(
            (#[trigger] bucket(kva, b, nreduce)[k]).0,
            nreduce,
        ) == b,
    decreases kva.len(),
{
    if kva.len() > 0 {
        let d = kva.drop_last();
        law_bucket_members(d, b, nreduce);
        let prev = bucket(d, b, nreduce);
        assert forall|k: int| 0 <= k < bucket(kva, b, nreduce).len() implies bucket_of(
            (#[trigger] bucket(kva, b, nreduce)[k]).0,
            nreduce,
        ) == b by {
            if k < prev.len() {
                assert(bucket(kva, b, nreduce)[k] == prev[k]);
            }
        }
    }
}

proof fn lemma_bucket_total_step(kva: Seq<(Seq<char>, Seq<char>)>, nreduce: nat, m: nat)
    requires
        kva.len() > 0,
    ensures
        bucket_total(kva, nreduce, m) == bucket_total(kva.drop_last(), nreduce, m) + if bucket_of(
            kva.last().0,
            nreduce,
        ) < m {
            1nat
        } else {
            0nat
        },
    decreases m,
{
    if m > 0 {
        lemma_bucket_total_step(kva, nreduce, (m - 1) as nat);
    }
}

/// Partitioning loses no pair and duplicates none: the buckets together hold as many
/// pairs as the map output.
pub proof fn law_partition_keeps_every_pair(kva: Seq<(Seq<char>, Seq<char>)>, nreduce: nat)
    requires
        nreduce > 0,
    ensures
        bucket_total(kva, nreduce, nreduce) == kva.len(),
    decreases kva.len(),
{
    if kva.len() == 0 {
        lemma_bucket_total_empty(kva, nreduce, nreduce);
    } else {
        law_partition_keeps_every_pair(kva.drop_last(), nreduce);
        lemma_bucket_total_step(kva, nreduce, nreduce);
    }
}

proof fn lemma_bucket_total_empty(kva: Seq<(Seq<char>, Seq<char>)>, nreduce: nat, m: nat)
    requires
        kva.len() == 0,
    ensures
        bucket_total(kva, nreduce, m) == 0,
    decreases m,
{
    if m > 0 {
        lemma_bucket_total_empty(kva, nreduce, (m - 1) as nat);
    }
}

} // verus!
