use rltk::ngrams::{Model, NGram};

#[test]
fn test_ngram_eq() {
    let n1 = NGram::new(vec!["1", "2"]);
    let n2 = NGram::new(vec!["1", "2"]);
    let n3 = NGram::new(vec!["3", "4"]);

    assert_eq!(n1, n2);
    assert_ne!(n1, n3);
    assert_ne!(n2, n3);
}

#[test]
fn test_ngram_tail() {
    let n1 = NGram::new(vec!["1", "2", "3"]);
    let n2 = NGram::new(vec!["2", "3"]);
    assert_eq!(n1.tail(), n2);
}

#[test]
fn digram_model_counts() {
    let corpus = vec![
        vec!["<s>", "I", "am", "Sam", "</s>"],
        vec!["<s>", "Sam", "I", "am", "</s>"],
    ];
    let model = Model::calc_digrams(corpus);
    assert_eq!(model.word_count("I"), 2);
    assert_eq!(model.word_count("Sam"), 2);
    assert_eq!(model.word_count("ham"), 0);
    assert_eq!(model.digram_count(&NGram::new_bigram("<s>", "I")), 1);
    assert_eq!(model.digram_count(&NGram::new_bigram("I", "am")), 2);
    assert_eq!(model.digram_count(&NGram::new_bigram("am", "I")), 0);
}
