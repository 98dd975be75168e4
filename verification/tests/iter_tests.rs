use rltk::util::ngrams::{EveryGramSequenceIter, FlatteningIter, NGramSequenceIter};
use rltk::util::padding::Padder;

fn strs(words: &[&str]) -> Vec<String> {
    words.iter().map(|w| w.to_string()).collect()
}

#[test]
fn ngram_iter_slides_by_one() {
    let mut it = NGramSequenceIter::new(strs(&["a", "b", "c"]), 2);
    assert_eq!(it.next().unwrap(), strs(&["a", "b"]));
    assert_eq!(it.next().unwrap(), strs(&["b", "c"]));
    assert!(it.next().is_none());
}

#[test]
fn everygram_iter_grows_then_moves() {
    let mut it = EveryGramSequenceIter::everygrams(strs(&["a", "b", "c"]), 2);
    assert_eq!(it.next().unwrap(), strs(&["a"]));
    assert_eq!(it.next().unwrap(), strs(&["a", "b"]));
    assert_eq!(it.next().unwrap(), strs(&["b"]));
    assert_eq!(it.next().unwrap(), strs(&["b", "c"]));
    assert_eq!(it.next().unwrap(), strs(&["c"]));
    assert!(it.next().is_none());
}

#[test]
fn flattening_iter_skips_empty_lists() {
    let lists = vec![strs(&[]), strs(&["a", "b"]), strs(&[]), strs(&["c"])];
    let mut it = FlatteningIter::new(lists);
    assert_eq!(it.next().unwrap(), "a");
    assert_eq!(it.next().unwrap(), "b");
    assert_eq!(it.next().unwrap(), "c");
    assert!(it.next().is_none());
}

#[test]
fn padder_yields_both_sides() {
    let mut p = Padder::new(strs(&["a", "b"]), true, "<s>", true, "</s>", 3);
    let mut out: Vec<String> = Vec::new();
    while let Some(tok) = p.next() {
        out.push(tok);
    }
    assert_eq!(out, strs(&["<s>", "<s>", "a", "b", "</s>", "</s>"]));
}
