//! The interface that a MapReduce application implements: a map function and a
//! reduce function.
use vstd::prelude::*;
use crate::ds::KeyValue;

verus! {

/// The map function of an application: from an input file's name and contents to
/// intermediate pairs.
pub trait MapFunction {
    fn map(&self, filename: String, contents: String) -> Vec<KeyValue>;
}

/// The reduce function of an application: from a key and all its values to the
/// key's output. An application states what its function computes in `reduce_spec`.
pub trait ReduceFunction {
    /// The output of the reduce function for `key` and `values`.
    spec fn reduce_spec(&self, key: Seq<char>, values: Seq<Seq<char>>) -> Seq<char>;

    fn reduce(&self, key: String, values: Vec<String>) -> (r: String)
        ensures
            r@ == self.reduce_spec(key@, values.deep_view()),
    ;
}

/// Why calling an application's function failed.
#[derive(Debug)]
pub enum InvocationError {
    InvalidArgumentCount { expected: usize, found: usize },
    Other { msg: String },
}

} // verus!
