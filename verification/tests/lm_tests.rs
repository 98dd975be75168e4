use rltk::lm::mle::{Counter, Vocabulary};
use rltk::lm::preprocessing::padded_everygrams;

fn strs(words: &[&str]) -> Vec<String> {
    words.iter().map(|w| w.to_string()).collect()
}

fn should_be_equal_list_of_lists(actual: &Vec<Vec<String>>, expected: Vec<Vec<&str>>) {
    assert_eq!(actual.len(), expected.len());
    for (actual_outer, expected_outer) in actual.iter().zip(expected.into_iter()) {
        assert_eq!(actual_outer.len(), expected_outer.len());
        for (actual_inner, expected_inner) in actual_outer.iter().zip(expected_outer.iter()) {
            assert_eq!(actual_inner, expected_inner);
        }
    }
}

#[test]
fn test_lookup() {
    let mut vocab = Vocabulary::new(1);
    vocab.update_sentence(&strs(&["a", "b", "c", "a", "b", "c"]));
    let looked_up = vocab.lookup_sentence(&strs(&["a", "b", "c"]));
    assert_eq!(looked_up, strs(&["a", "b", "c"]));
    let looked_up = vocab.lookup_sentence(&strs(&["Aliens", "from", "Mars"]));
    assert_eq!(looked_up, strs(&["<UNK>", "<UNK>", "<UNK>"]));
}

#[test]
fn test_lookup_below_cutoff() {
    let mut vocab = Vocabulary::new(1);
    vocab.update_sentence(&strs(&["a", "b", "c"]));
    let looked_up = vocab.lookup_sentence(&strs(&["a", "b", "c"]));
    assert_eq!(looked_up, strs(&["<UNK>", "<UNK>", "<UNK>"]));
}

#[test]
fn test_count_words() {
    let mut counter = Counter::new();
    counter.update_word("a");

    assert_eq!(counter.get("a"), 1);
}

#[test]
fn test_count_sentence() {
    let mut counter = Counter::new();
    counter.update_sentence(&strs(&["a", "b", "a"]));

    assert_eq!(counter.get("a"), 2);
    assert_eq!(counter.get("b"), 1);
}

#[test]
fn test() {
    let sentence = strs(&["a", "b", "c"]);
    let bigrams = padded_everygrams(&sentence, 2);

    let expected = vec![
        vec!["<s>"],
        vec!["<s>", "a"],
        vec!["a"],
        vec!["a", "b"],
        vec!["b"],
        vec!["b", "c"],
        vec!["c"],
        vec!["c", "</s>"],
        vec!["</s>"],
    ];

    should_be_equal_list_of_lists(&bigrams, expected)
}
