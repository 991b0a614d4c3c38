//! Data structures shared by the coordinator and the workers.
use vstd::prelude::*;

pub mod intermediate;
pub mod task;
pub mod taskman;

verus! {

/// Whether a MapReduce job still has tasks to hand out.
#[derive(PartialEq, Eq, Structural, Debug, Clone, Copy)]
pub enum MapReduceStatus {
    InProgress,
    Completed,
}

/// A pair that a map function emits and a reduce function consumes.
#[derive(Debug)]
pub struct KeyValue {
    pub key: String,
    pub value: String,
}

impl View for KeyValue {
    type V = (Seq<char>, Seq<char>);

    open spec fn view(&self) -> (Seq<char>, Seq<char>) {
        (self.key@, self.value@)
    }
}

impl Clone for KeyValue {
    fn clone(&self) -> (res: Self)
        ensures
            res@ == self@,
    {
        KeyValue { key: self.key.clone(), value: self.value.clone() }
    }
}

impl KeyValue {
    pub fn new(key: String, value: String) -> (kv: KeyValue)
        ensures
            kv@ == (key@, value@),
    {
        KeyValue { key, value }
    }
}

/// The values of a sequence of pairs.
pub open spec fn pairs_view(kva: Seq<KeyValue>) -> Seq<(Seq<char>, Seq<char>)> {
    kva.map_values(|kv: KeyValue| kv@)
}

} // verus!
