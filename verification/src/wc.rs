//! Word count: the map function emits each word with the count "1", and the reduce
//! function counts the values of a word.
use vstd::prelude::*;
use crate::ds::{pairs_view, KeyValue};
use crate::names::{decimal, decimal_string, is_digit, lemma_decimal_digits, law_decimal_value, numeral_value};
use crate::plugin::{MapFunction, ReduceFunction};
use crate::text::{upper_text, regex_replace_all, regex_split, replace_all_by, split_by, to_ascii_uppercase};

verus! {

/// Words are separated by runs of spaces and line breaks.
pub const WORD_SEPARATOR: &'static str = r"([ \n]+)";

/// An exclamation mark followed by a letter, which `mapf` strips.
pub const BANG_LETTER: &'static str = r"![a-zA-Z]";

/// What `mapf` puts in place of an exclamation mark before a letter: nothing.
pub const NOTHING: &'static str = "";

/// Each word paired with the count "1".
pub open spec fn ones(words: Seq<Seq<char>>) -> Seq<(Seq<char>, Seq<char>)> {
    words.map_values(|w: Seq<char>| (w, seq!['1']))
}

/// The words that `mapf` counts in `contents`: the pieces between separators of the
/// text with every exclamation mark before a letter removed, in upper case.
pub open spec fn shouted_words(contents: Seq<char>) -> Option<Seq<Seq<char>>> {
    match regex_replace_all(BANG_LETTER@, contents, NOTHING@) {
        Some(t) => regex_split(WORD_SEPARATOR@, upper_text(t)),
        None => None,
    }
}

/// Pairs each word with the count "1".
pub fn emit_ones(words: Vec<String>) -> (kva: Vec<KeyValue>)
    ensures
        pairs_view(kva@) == ones(words.deep_view()),
{
    let mut kva: Vec<KeyValue> = Vec::new();
    let mut i: usize = 0;
    while i < words.len()
        invariant
            0 <= i <= words.len(),
            kva@.len() == i,
            pairs_view(kva@) == ones(words.deep_view()).take(i as int),
        decreases words.len() - i,
    {
        proof {
            reveal_strlit("1");
        }
        let kv = KeyValue::new(words[i].clone(), String::from_str("1"));
        let ghost prev = kva@;
        kva.push(kv);
        proof {
            assert(kva@[i as int]@ == (words.deep_view()[i as int], seq!['1']));
            assert(forall|k: int| 0 <= k < i ==> kva@[k] == prev[k]);
            assert(pairs_view(kva@) =~= ones(words.deep_view()).take(i + 1));
        }
        i = i + 1;
    }
    proof {
        assert(ones(words.deep_view()).take(i as int) =~= ones(words.deep_view()));
    }
    kva
}

/// Emits each word of `contents` with the count "1"; words are the pieces between
/// runs of spaces and line breaks.
pub fn map(filename: String, contents: String) -> (kva: Vec<KeyValue>)
    requires
        regex_split(WORD_SEPARATOR@, contents@) is Some,
    ensures
        pairs_view(kva@) == ones(regex_split(WORD_SEPARATOR@, contents@).unwrap()),
{
    match split_by(WORD_SEPARATOR, contents.as_str()) {
        Some(words) => emit_ones(words),
        // The separator compiles (required), so this arm is never taken.
        None => Vec::new(),
    }
}

/// `map` where the word separator compiles; `None` where it does not.
pub fn try_map(filename: String, contents: String) -> (r: Option<Vec<KeyValue>>)
    ensures
        (match r {
            Some(kva) => regex_split(WORD_SEPARATOR@, contents@) matches Some(words)
                && pairs_view(kva@) == ones(words),
            None => regex_split(WORD_SEPARATOR@, contents@) is None,
        }),
{
    match split_by(WORD_SEPARATOR, contents.as_str()) {
        Some(_) => Some(map(filename, contents)),
        None => None,
    }
}

/// Counts the values of a word.
pub fn reduce(key: String, values: Vec<String>) -> (count: String)
    ensures
        count@ == decimal(values.len() as nat),
        numeral_value(count@) == values.len(),
{
    proof {
        law_decimal_value(values.len() as nat);
    }
    decimal_string(values.len() as u64)
}

/// Emits each word of `contents` with the count "1", after removing every
/// exclamation mark that precedes a letter and turning the text into upper case.
pub fn mapf(filename: String, contents: String) -> (kva: Vec<KeyValue>)
    requires
        shouted_words(contents@) is Some,
    ensures
        pairs_view(kva@) == ones(shouted_words(contents@).unwrap()),
{
    match replace_all_by(BANG_LETTER, contents.as_str(), NOTHING) {
        Some(stripped) => {
            let upper = to_ascii_uppercase(stripped.as_str());
            match split_by(WORD_SEPARATOR, upper.as_str()) {
                Some(words) => emit_ones(words),
                None => Vec::new(),
            }
        },
        None => Vec::new(),
    }
}

/// `mapf` where both patterns compile; `None` where one does not.
pub fn try_mapf(filename: String, contents: String) -> (r: Option<Vec<KeyValue>>)
    ensures
        (match r {
            Some(kva) => shouted_words(contents@) matches Some(words) && pairs_view(kva@) == ones(words),
            None => shouted_words(contents@) is None,
        }),
{
    match replace_all_by(BANG_LETTER, contents.as_str(), NOTHING) {
        Some(stripped) => {
            let upper = to_ascii_uppercase(stripped.as_str());
            match split_by(WORD_SEPARATOR, upper.as_str()) {
                Some(_) => Some(mapf(filename, contents)),
                None => None,
            }
        },
        None => None,
    }
}

/// Counts the values of a word.
pub fn reducef(key: String, values: Vec<String>) -> (count: String)
    ensures
        count@ == decimal(values.len() as nat),
        numeral_value(count@) == values.len(),
{
    proof {
        law_decimal_value(values.len() as nat);
    }
    decimal_string(values.len() as u64)
}

/// The word-count map function of the word-count application.
pub struct Mapper;

/// The word-count reduce function of the word-count application.
pub struct Reduce;

impl MapFunction for Mapper {
    /// The pairs of `map`; none when the word separator does not compile.
    fn map(&self, filename: String, contents: String) -> (kva: Vec<KeyValue>)
        ensures
            (match regex_split(WORD_SEPARATOR@, contents@) {
                Some(words) => pairs_view(kva@) == ones(words),
                None => kva@.len() == 0,
            }),
    {
        match try_map(filename, contents) {
            Some(kva) => kva,
            None => Vec::new(),
        }
    }
}

impl ReduceFunction for Reduce {
    /// The number of values, in decimal.
    open spec fn reduce_spec(&self, key: Seq<char>, values: Seq<Seq<char>>) -> Seq<char> {
        decimal(values.len())
    }

    fn reduce(&self, key: String, values: Vec<String>) -> (count: String)
        ensures
            count@ == decimal(values.len() as nat),
            numeral_value(count@) == values.len(),
    {
        reduce(key, values)
    }
}

/// The word-count reduce function gives, for every word and list of values, the
/// decimal numeral of the number of values: a string of digits, without a leading
/// zero, that reads back as that number. It agrees with `reduce` and `reducef`.
pub proof fn law_word_count_reduce(key: Seq<char>, values: Seq<Seq<char>>)
    ensures
        numeral_value(Reduce.reduce_spec(key, values)) == values.len(),
        forall|k: int|
            0 <= k < Reduce.reduce_spec(key, values).len() ==> is_digit(
                #[trigger] Reduce.reduce_spec(key, values)[k],
            ),
        Reduce.reduce_spec(key, values).len() >= 1,
        Reduce.reduce_spec(key, values).len() > 1 ==> Reduce.reduce_spec(key, values)[0] != '0',
        Reduce.reduce_spec(key, values) == decimal(values.len()),
{
    law_decimal_value(values.len());
    lemma_decimal_digits(values.len());
}

} // verus!
