use mr::ds::KeyValue;
use mr::plugin::{MapFunction, ReduceFunction};
use mr::wc::{emit_ones, mapf, reduce, reducef, try_map, try_mapf, Mapper, Reduce};

fn pairs(kva: &[KeyValue]) -> Vec<(String, String)> {
    kva.iter().map(|kv| (kv.key.clone(), kv.value.clone())).collect()
}

fn expect(words: &[&str]) -> Vec<(String, String)> {
    words.iter().map(|w| (w.to_string(), "1".to_string())).collect()
}

#[test]
fn map_emits_each_word_with_one() {
    let kva = mr::wc::map("f.txt".to_string(), "the cat\nthe  dog".to_string());
    assert_eq!(pairs(&kva), expect(&["the", "cat", "the", "dog"]));
}

#[test]
fn map_keeps_empty_pieces_at_the_edges() {
    let kva = mr::wc::map("f.txt".to_string(), " a b\n".to_string());
    assert_eq!(pairs(&kva), expect(&["", "a", "b", ""]));
}

#[test]
fn map_of_empty_text_is_one_empty_word() {
    let kva = mr::wc::map("f.txt".to_string(), String::new());
    assert_eq!(pairs(&kva), expect(&[""]));
}

#[test]
fn try_map_agrees_with_map() {
    let kva = try_map("f".to_string(), "x y".to_string()).unwrap();
    assert_eq!(pairs(&kva), expect(&["x", "y"]));
}

#[test]
fn mapf_strips_bang_letters_and_shouts() {
    let kva = mapf("f".to_string(), "hello !xworld\nfoo".to_string());
    assert_eq!(pairs(&kva), expect(&["HELLO", "WORLD", "FOO"]));
    let kva = try_mapf("f".to_string(), "a! b".to_string()).unwrap();
    assert_eq!(pairs(&kva), expect(&["A!", "B"]));
}

#[test]
fn reduce_counts_values() {
    assert_eq!(reduce("w".to_string(), vec!["1".to_string(); 12]), "12");
    assert_eq!(reduce("w".to_string(), vec![]), "0");
    assert_eq!(reducef("w".to_string(), vec!["1".to_string(); 3]), "3");
}

#[test]
fn emit_ones_pairs_each_word() {
    let kva = emit_ones(vec!["a".to_string(), "b".to_string()]);
    assert_eq!(pairs(&kva), expect(&["a", "b"]));
}

#[test]
fn plugin_structs_delegate() {
    let kva = Mapper.map("f".to_string(), "p q".to_string());
    assert_eq!(pairs(&kva), expect(&["p", "q"]));
    assert_eq!(Reduce.reduce("p".to_string(), vec!["1".to_string(), "1".to_string()]), "2");
}
