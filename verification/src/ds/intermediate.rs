//! The values of the intermediate pairs of a reduce task, grouped by key.
use vstd::prelude::*;

verus! {

/// An entry of the grouping: a key and the values seen for it, in order.
pub type Group = (Seq<char>, Seq<Seq<char>>);

/// The index of the first entry with key `key`; the length when there is none.
pub open spec fn key_index(e: Seq<Group>, key: Seq<char>) -> int
    decreases e.len(),
{
    if e.len() == 0 {
        0
    } else if e[0].0 == key {
        0
    } else {
        1 + key_index(e.drop_first(), key)
    }
}

/// The values grouped under `key`, if any.
pub open spec fn lookup(e: Seq<Group>, key: Seq<char>) -> Option<Seq<Seq<char>>> {
    let i = key_index(e, key);
    if i < e.len() {
        Some(e[i].1)
    } else {
        None
    }
}

/// The grouping after `value` is added under `key`: appended to the values of the
/// key's entry, or in a new entry at the end when the key is new.
pub open spec fn insert_value(e: Seq<Group>, key: Seq<char>, value: Seq<char>) -> Seq<Group> {
    let i = key_index(e, key);
    if i < e.len() {
        e.update(i, (key, e[i].1.push(value)))
    } else {
        e.push((key, seq![value]))
    }
}

/// No key has two entries.
pub open spec fn keys_distinct(e: Seq<Group>) -> bool {
    forall|i: int, j: int| 0 <= i < j < e.len() ==> (#[trigger] e[i]).0 != (#[trigger] e[j]).0
}

/// What `key_index` is: the first index whose entry has key `key`.
pub proof fn lemma_key_index(e: Seq<Group>, key: Seq<char>)
    ensures
        0 <= key_index(e, key) <= e.len(),
        key_index(e, key) < e.len() ==> e[key_index(e, key)].0 == key,
        forall|j: int| 0 <= j < key_index(e, key) ==> (#[trigger] e[j]).0 != key,
    decreases e.len(),
{
    if e.len() > 0 && e[0].0 != key {
        lemma_key_index(e.drop_first(), key);
        assert forall|j: int| 0 <= j < key_index(e, key) implies (#[trigger] e[j]).0 != key by {
            if j > 0 {
                assert(e[j] == e.drop_first()[j - 1]);
            }
        }
    }
}

/// `key_index` is the one index before which no entry has the key and at which,
/// unless it is the length, the entry has it.
proof fn lemma_key_index_is(e: Seq<Group>, key: Seq<char>, i: int)
    requires
        0 <= i <= e.len(),
        forall|j: int| 0 <= j < i ==> (#[trigger] e[j]).0 != key,
        i < e.len() ==> e[i].0 == key,
    ensures
        key_index(e, key) == i,
{
    lemma_key_index(e, key);
}

/// Adding a value to a key appends it to that key's values, or starts them, and
/// leaves the values of every other key as they were.
pub proof fn law_insert_then_lookup(e: Seq<Group>, key: Seq<char>, value: Seq<char>, other: Seq<char>)
    ensures
        lookup(insert_value(e, key, value), key) == Some(
            match lookup(e, key) {
                Some(vs) => vs.push(value),
                None => seq![value],
            },
        ),
        other != key ==> lookup(insert_value(e, key, value), other) == lookup(e, other),
{
    lemma_key_index(e, key);
    lemma_key_index(e, other);
    let i = key_index(e, key);
    let e2 = insert_value(e, key, value);
    if i < e.len() {
        assert forall|j: int| 0 <= j < e2.len() implies (#[trigger] e2[j]).0 == e[j].0 by {}
        lemma_key_index_is(e2, key, i);
        if other != key {
            lemma_key_index_is(e2, other, key_index(e, other));
        }
    } else {
        assert forall|j: int| 0 <= j < e.len() implies (#[trigger] e2[j]) == e[j] by {}
        lemma_key_index_is(e2, key, i);
        if other != key {
            let k = key_index(e, other);
            if k < e.len() {
                lemma_key_index_is(e2, other, k);
            } else {
                lemma_key_index_is(e2, other, e2.len() as int);
            }
        }
    }
}

/// Adding a value never gives a key a second entry.
pub proof fn law_insert_keeps_keys_distinct(e: Seq<Group>, key: Seq<char>, value: Seq<char>)
    requires
        keys_distinct(e),
    ensures
        keys_distinct(insert_value(e, key, value)),
{
    lemma_key_index(e, key);
    let e2 = insert_value(e, key, value);
    let i = key_index(e, key);
    if i < e.len() {
        assert forall|a: int, b: int| 0 <= a < b < e2.len() implies (#[trigger] e2[a]).0 != (#[trigger] e2[b]).0 by {
            assert(e2[a].0 == e[a].0);
            assert(e2[b].0 == e[b].0);
        }
    } else {
        assert forall|a: int, b: int| 0 <= a < b < e2.len() implies (#[trigger] e2[a]).0 != (#[trigger] e2[b]).0 by {
            if b == e.len() {
                assert(e2[a] == e[a]);
            } else {
                assert(e2[a] == e[a]);
                assert(e2[b] == e[b]);
            }
        }
    }
}

/// Groups values by key.
pub struct Intermediate(Vec<(String, Vec<String>)>);

impl View for Intermediate {
    type V = Seq<Group>;

    closed spec fn view(&self) -> Seq<Group> {
        self.0@.map_values(|entry: (String, Vec<String>)| (entry.0@, entry.1.deep_view()))
    }
}

impl Intermediate {
    /// No key yet.
    pub fn new() -> (im: Self)
        ensures
            im@ == Seq::<Group>::empty(),
    {
        let im = Intermediate(Vec::new());
        proof {
            assert(im@ =~= Seq::<Group>::empty());
        }
        im
    }

    fn find(&self, key: &String) -> (i: usize)
        ensures
            i == key_index(self@, key@),
    {
        let ghost e = self@;
        proof {
            lemma_key_index(e, key@);
        }
        let mut i: usize = 0;
        while i < self.0.len()
            invariant
                e == self@,
                0 <= i <= self.0.len(),
                forall|j: int| 0 <= j < i ==> (#[trigger] e[j]).0 != key@,
            decreases self.0.len() - i,
        {
            proof {
                assert(e[i as int].0 == self.0@[i as int].0@);
            }
            if self.0[i].0 == *key {
                proof {
                    lemma_key_index(e, key@);
                }
                return i;
            }
            i = i + 1;
        }
        i
    }

    /// Adds `value` to the values of `key`.
    pub fn insert(&mut self, key: String, value: String)
        ensures
            final(self)@ == insert_value(old(self)@, key@, value@),
    {
        let ghost e = self@;
        let i = self.find(&key);
        proof {
            lemma_key_index(e, key@);
        }
        if i < self.0.len() {
            let ghost before = self.0@[i as int].1;
            self.0[i].1.push(value);
            proof {
                assert(self.0@[i as int].1.deep_view() =~= before.deep_view().push(value@));
                assert(self@ =~= insert_value(e, key@, value@));
            }
        } else {
            let mut values: Vec<String> = Vec::new();
            values.push(value);
            proof {
                assert(values.deep_view() =~= seq![value@]);
            }
            self.0.push((key, values));
            proof {
                assert(self@ =~= insert_value(e, key@, value@));
            }
        }
    }

    /// The values of `key`, if it has any.
    pub fn get(&mut self, key: String) -> (r: Option<&Vec<String>>)
        ensures
            final(self)@ == old(self)@,
            (match r {
                Some(v) => lookup(old(self)@, key@) == Some(v.deep_view()),
                None => lookup(old(self)@, key@) is None,
            }),
    {
        let i = self.find(&key);
        if i < self.0.len() {
            Some(&self.0[i].1)
        } else {
            None
        }
    }

    /// The number of keys.
    pub fn len(&self) -> (n: usize)
        ensures
            n == self@.len(),
    {
        self.0.len()
    }

    /// The `i`-th key and its values, in the order keys were first seen.
    pub fn entry(&self, i: usize) -> (r: (&String, &Vec<String>))
        requires
            i < self@.len(),
        ensures
            r.0@ == self@[i as int].0,
            r.1.deep_view() == self@[i as int].1,
    {
        (&self.0[i].0, &self.0[i].1)
    }
}

} // verus!
