use rltk::util::ngrams::NGramSequenceIter;
use rltk::util::{
    bigrams, everygrams, flatten, ngrams, pad_sequence, pad_sequence_left, pad_sequence_right,
    trigrams,
};

fn strs(words: &[&str]) -> Vec<String> {
    words.iter().map(|w| w.to_string()).collect()
}

fn should_be_equal_lists(left: &Vec<String>, right: Vec<&str>) {
    for (l, r) in left.iter().zip(right.into_iter()) {
        assert_eq!(l, r);
    }
}

fn should_be_equal_list_of_lists(actual: &Vec<Vec<String>>, expected: Vec<Vec<&str>>) {
    assert_eq!(actual.len(), expected.len());
    for (actual_outer, expected_outer) in actual.iter().zip(expected.into_iter()) {
        assert_eq!(actual_outer.len(), expected_outer.len());
        for (actual_inner, expected_inner) in actual_outer.iter().zip(expected_outer.iter()) {
            assert_eq!(actual_inner, expected_inner);
        }
    }
}

#[test]
fn test_pad_both_ends_default_n2() {
    let text = strs(&["a", "b", "c"]);
    let padded = pad_sequence(&text, true, "<s>", true, "</s>", 2);
    should_be_equal_lists(&padded, vec!["<s>", "a", "b", "c", "</s>"]);
    assert_eq!(padded.len(), 5);
}

#[test]
fn test_pad_left() {
    let text = strs(&["a", "b", "c"]);
    let padded = pad_sequence_left(&text, "<s>", 2);
    should_be_equal_lists(&padded, vec!["<s>", "a", "b", "c"]);
    assert_eq!(padded.len(), 4);
}

#[test]
fn test_pad_right() {
    let text = strs(&["a", "b", "c"]);
    let padded = pad_sequence_right(&text, "</s>", 2);

    should_be_equal_lists(&padded, vec!["a", "b", "c", "</s>"]);
    assert_eq!(padded.len(), 4);
}

#[test]
fn test_pad_both_ends_default_n_eq_3() {
    let text = strs(&["a", "b", "c"]);
    let padded = pad_sequence(&text, true, "<s>", true, "</s>", 3);
    should_be_equal_lists(&padded, vec!["<s>", "<s>", "a", "b", "c", "</s>", "</s>"]);
    assert_eq!(padded.len(), 7);
}

#[test]
fn test_pad_both_ends_non_default_symbols() {
    let text = strs(&["a", "b", "c"]);
    let padded = pad_sequence(&text, true, "left", true, "right", 2);

    should_be_equal_lists(&padded, vec!["left", "a", "b", "c", "right"]);
    assert_eq!(padded.len(), 5);
}

#[test]
fn test_bigrams() {
    let sequence = strs(&["a", "b", "c", "d"]);
    let bigrams = ngrams(&sequence, 2);
    let expected = vec![vec!["a", "b"], vec!["b", "c"], vec!["c", "d"]];

    should_be_equal_list_of_lists(&bigrams, expected)
}

#[test]
fn test_trigrams() {
    let sequence = strs(&["a", "b", "c", "d", "e"]);
    let trigrams = ngrams(&sequence, 3);
    let expected = vec![vec!["a", "b", "c"], vec!["b", "c", "d"], vec!["c", "d", "e"]];

    should_be_equal_list_of_lists(&trigrams, expected)
}

#[test]
fn test_bigrams_n_gt_len() {
    let sequence = strs(&["a"]);
    let mut bigrams = NGramSequenceIter::new(sequence, 2);
    assert!(bigrams.next().is_none());
}

#[test]
fn test_bigrams_empty_sequence() {
    let sequence = strs(&[]);
    let mut bigrams = NGramSequenceIter::new(sequence, 10);
    assert!(bigrams.next().is_none());
}

#[test]
fn test_bigrams_n_eq_len() {
    let sequence = strs(&["a", "b"]);
    let bigrams = ngrams(&sequence, 2);
    let expected = vec![vec!["a", "b"]];

    should_be_equal_list_of_lists(&bigrams, expected);
}

#[test]
fn test_flatten() {
    let sequence = strs(&["a", "b", "c", "d", "e"]);
    let expected = vec![
        "a", "a", "b", "a", "b", "c", "b", "b", "c", "b", "c", "d", "c", "c", "d", "c", "d", "e",
    ];

    should_be_equal_lists(&flatten(&everygrams(&sequence, 3)), expected);
}

#[test]
fn shorthand_windows() {
    let sequence = strs(&["a", "b", "c"]);
    should_be_equal_list_of_lists(&bigrams(&sequence), vec![vec!["a", "b"], vec!["b", "c"]]);
    should_be_equal_list_of_lists(&trigrams(&sequence), vec![vec!["a", "b", "c"]]);
}
