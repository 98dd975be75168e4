//! N-grams over string literals and a digram-counting model.

use crate::assoc::{
    distinct_keys, lemma_assoc_map_dom, lemma_assoc_map_index, lemma_assoc_map_push,
    lemma_assoc_map_update, spec_assoc_map, spec_tally, tally_of,
};
use vstd::prelude::*;

verus! {

/// An n-gram: an ordered group of tokens.
#[derive(Debug)]
pub struct NGram(Vec<&'static str>);

impl NGram {
    /// The characters of each token, in order.
    pub closed spec fn spec_items(self) -> Seq<Seq<char>> {
        self.0@.map_values(|s: &'static str| s@)
    }

    pub fn new(elements: Vec<&'static str>) -> (r: Self)
        ensures
            r.spec_items() == elements@.map_values(|s: &'static str| s@),
    {
        NGram(elements)
    }

    pub fn new_bigram(element1: &'static str, element2: &'static str) -> (r: Self)
        ensures
            r.spec_items() =~= seq![element1@, element2@],
    {
        let mut elements: Vec<&'static str> = Vec::new();
        elements.push(element1);
        elements.push(element2);
        NGram(elements)
    }

    pub fn new_trigram(
        element1: &'static str,
        element2: &'static str,
        element3: &'static str,
    ) -> (r: Self)
        ensures
            r.spec_items() =~= seq![element1@, element2@, element3@],
    {
        let mut elements: Vec<&'static str> = Vec::new();
        elements.push(element1);
        elements.push(element2);
        elements.push(element3);
        NGram(elements)
    }

    /// The n-gram without its first token.
    pub fn tail(&self) -> (r: Self)
        requires
            self.spec_items().len() >= 1,
        ensures
            r.spec_items() == self.spec_items().drop_first(),
    {
        let mut elements: Vec<&'static str> = Vec::new();
        let mut i: usize = 1;
        while i < self.0.len()
            invariant
                1 <= i <= self.0@.len(),
                elements@ == self.0@.subrange(1, i as int),
            decreases self.0@.len() - i,
        {
            elements.push(self.0[i]);
            i = i + 1;
            proof {
                assert(elements@ =~= self.0@.subrange(1, i as int));
            }
        }
        proof {
            assert(self.0@.subrange(1, self.0@.len() as int) =~= self.0@.drop_first());
        }
        let r = NGram(elements);
        proof {
            assert(r.spec_items() =~= self.spec_items().drop_first());
        }
        r
    }

    /// How many tokens the n-gram holds.
    pub fn len(&self) -> (r: usize)
        ensures
            r == self.spec_items().len(),
    {
        self.0.len()
    }

    /// The token at `index`.
    pub fn get(&self, index: usize) -> (r: &'static str)
        requires
            index < self.spec_items().len(),
        ensures
            r@ == self.spec_items()[index as int],
    {
        self.0[index]
    }
}

/// Whether two string slices hold the same characters.
fn str_eq(a: &str, b: &str) -> (r: bool)
    ensures
        r == (a@ == b@),
{
    let sa = a.to_owned();
    let sb = b.to_owned();
    sa == sb
}

impl PartialEq for NGram {
    /// Two n-grams are equal when they hold the same tokens in the same
    /// order.
    fn eq(&self, other: &Self) -> (r: bool) {
        if self.0.len() != other.0.len() {
            return false;
        }
        let mut i: usize = 0;
        while i < self.0.len()
            invariant
                self.0@.len() == other.0@.len(),
                i <= self.0@.len(),
                forall|j: int| 0 <= j < i ==> self.spec_items()[j] == other.spec_items()[j],
            decreases self.0@.len() - i,
        {
            if !str_eq(self.0[i], other.0[i]) {
                proof {
                    assert(self.spec_items()[i as int] != other.spec_items()[i as int]);
                }
                return false;
            }
            i = i + 1;
        }
        proof {
            assert(self.spec_items() =~= other.spec_items());
        }
        true
    }
}

impl vstd::std_specs::cmp::PartialEqSpecImpl for NGram {
    open spec fn obeys_eq_spec() -> bool {
        true
    }

    open spec fn eq_spec(&self, other: &NGram) -> bool {
        self.spec_items() == other.spec_items()
    }
}

/// The digrams of one sentence: each adjacent pair of words, in order.
pub open spec fn sentence_digrams(s: Seq<Seq<char>>) -> Seq<Seq<Seq<char>>>
    recommends
        s.len() >= 1,
{
    Seq::new((s.len() - 1) as nat, |i: int| seq![s[i], s[i + 1]])
}

/// The digrams of a whole corpus, sentence by sentence.
pub open spec fn corpus_digrams(corpus: Seq<Seq<Seq<char>>>) -> Seq<Seq<Seq<char>>> {
    corpus.map_values(|s: Seq<Seq<char>>| sentence_digrams(s)).flatten()
}

/// The entries of a word-count table over string literals.
pub open spec fn viewed_words(entries: Seq<(&'static str, u32)>) -> Seq<(Seq<char>, nat)> {
    entries.map_values(|p: (&'static str, u32)| (p.0@, p.1 as nat))
}

/// The entries of a digram-count table.
pub open spec fn viewed_ngrams(entries: Seq<(NGram, u32)>) -> Seq<(Seq<Seq<char>>, nat)> {
    entries.map_values(|p: (NGram, u32)| (p.0.spec_items(), p.1 as nat))
}

/// A digram language model: how often each word and each adjacent word
/// pair occurs in a corpus.
pub struct Model {
    word_counts: Vec<(&'static str, u32)>,
    ngram_counts: Vec<(NGram, u32)>,
}

impl Model {
    /// The word counts the model holds.
    pub closed spec fn spec_words(self) -> Map<Seq<char>, nat> {
        spec_assoc_map(viewed_words(self.word_counts@))
    }

    /// The digram counts the model holds.
    pub closed spec fn spec_digrams(self) -> Map<Seq<Seq<char>>, nat> {
        spec_assoc_map(viewed_ngrams(self.ngram_counts@))
    }

    pub closed spec fn wf(self) -> bool {
        &&& distinct_keys(viewed_words(self.word_counts@))
        &&& distinct_keys(viewed_ngrams(self.ngram_counts@))
    }

    /// The entry index holding `word`, if one does.
    fn find_word(&self, word: &'static str) -> (r: Option<usize>)
        ensures
            match r {
                Some(i) => i < self.word_counts@.len() && self.word_counts@[i as int].0@
                    == word@,
                None => forall|j: int|
                    0 <= j < self.word_counts@.len() ==> (#[trigger] self.word_counts@[j]).0@
                        != word@,
            },
    {
        let mut i: usize = 0;
        while i < self.word_counts.len()
            invariant
                i <= self.word_counts@.len(),
                forall|j: int| 0 <= j < i ==> (#[trigger] self.word_counts@[j]).0@ != word@,
            decreases self.word_counts@.len() - i,
        {
            if str_eq(self.word_counts[i].0, word) {
                return Some(i);
            }
            i = i + 1;
        }
        None
    }

    /// Counts one occurrence of `word`.
    fn tally_word(&mut self, word: &'static str)
        requires
            old(self).wf(),
            tally_of(old(self).spec_words(), word@) < u32::MAX,
        ensures
            final(self).wf(),
            final(self).spec_words() == old(self).spec_words().insert(
                word@,
                tally_of(old(self).spec_words(), word@) + 1,
            ),
            final(self).spec_digrams() == old(self).spec_digrams(),
            final(self).ngram_counts == old(self).ngram_counts,
    {
        let ghost pre = viewed_words(self.word_counts@);
        match self.find_word(word) {
            Some(i) => {
                proof {
                    lemma_assoc_map_index(pre, i as int);
                }
                let key = self.word_counts[i].0;
                let c = self.word_counts[i].1;
                self.word_counts[i] = (key, c + 1);
                proof {
                    assert(viewed_words(self.word_counts@) =~= pre.update(
                        i as int,
                        (pre[i as int].0, (c + 1) as nat),
                    ));
                    lemma_assoc_map_update(pre, i as int, (c + 1) as nat);
                }
            },
            None => {
                proof {
                    lemma_assoc_map_dom(pre, word@);
                }
                self.word_counts.push((word, 1));
                proof {
                    assert(viewed_words(self.word_counts@) =~= pre.push((word@, 1nat)));
                    lemma_assoc_map_push(pre, (word@, 1nat));
                }
            },
        }
    }

    /// The entry index holding `gram`, if one does.
    fn find_ngram(&self, gram: &NGram) -> (r: Option<usize>)
        ensures
            match r {
                Some(i) => {
                    let e = self.ngram_counts@[i as int];
                    i < self.ngram_counts@.len() && e.0.spec_items() == gram.spec_items()
                },
                None => forall|j: int|
                    0 <= j < self.ngram_counts@.len() ==> (#[trigger] self.ngram_counts@[j]).0.spec_items() != gram.spec_items(),
            },
    {
        let mut i: usize = 0;
        while i < self.ngram_counts.len()
            invariant
                i <= self.ngram_counts@.len(),
                forall|j: int|
                    0 <= j < i ==> (#[trigger] self.ngram_counts@[j]).0.spec_items()
                        != gram.spec_items(),
            decreases self.ngram_counts@.len() - i,
        {
            if self.ngram_counts[i].0 == *gram {
                return Some(i);
            }
            i = i + 1;
        }
        None
    }

    /// Counts one occurrence of `gram`.
    fn tally_ngram(&mut self, gram: NGram)
        requires
            old(self).wf(),
            tally_of(old(self).spec_digrams(), gram.spec_items()) < u32::MAX,
        ensures
            final(self).wf(),
            final(self).spec_digrams() == old(self).spec_digrams().insert(
                gram.spec_items(),
                tally_of(old(self).spec_digrams(), gram.spec_items()) + 1,
            ),
            final(self).spec_words() == old(self).spec_words(),
            final(self).word_counts == old(self).word_counts,
    {
        let ghost pre = viewed_ngrams(self.ngram_counts@);
        match self.find_ngram(&gram) {
            Some(i) => {
                proof {
                    lemma_assoc_map_index(pre, i as int);
                }
                let c = self.ngram_counts[i].1;
                self.ngram_counts[i] = (gram, c + 1);
                proof {
                    assert(viewed_ngrams(self.ngram_counts@) =~= pre.update(
                        i as int,
                        (pre[i as int].0, (c + 1) as nat),
                    ));
                    lemma_assoc_map_update(pre, i as int, (c + 1) as nat);
                }
            },
            None => {
                proof {
                    lemma_assoc_map_dom(pre, gram.spec_items());
                }
                let ghost gv = gram.spec_items();
                self.ngram_counts.push((gram, 1));
                proof {
                    assert(viewed_ngrams(self.ngram_counts@) =~= pre.push((gv, 1nat)));
                    lemma_assoc_map_push(pre, (gv, 1nat));
                }
            },
        }
    }

    /// How often a word occurs in the counted corpus.
    pub fn word_count(&self, word: &'static str) -> (r: u32)
        requires
            self.wf(),
        ensures
            r == tally_of(self.spec_words(), word@),
    {
        let ghost pre = viewed_words(self.word_counts@);
        match self.find_word(word) {
            Some(i) => {
                proof {
                    lemma_assoc_map_index(pre, i as int);
                }
                self.word_counts[i].1
            },
            None => {
                proof {
                    lemma_assoc_map_dom(pre, word@);
                }
                0
            },
        }
    }

    /// How often an adjacent word pair occurs in the counted corpus.
    pub fn digram_count(&self, gram: &NGram) -> (r: u32)
        requires
            self.wf(),
        ensures
            r == tally_of(self.spec_digrams(), gram.spec_items()),
    {
        let ghost pre = viewed_ngrams(self.ngram_counts@);
        match self.find_ngram(gram) {
            Some(i) => {
                proof {
                    lemma_assoc_map_index(pre, i as int);
                }
                self.ngram_counts[i].1
            },
            None => {
                proof {
                    lemma_assoc_map_dom(pre, gram.spec_items());
                }
                0
            },
        }
    }

    /// Builds the digram model of a corpus: every word counted, and every
    /// adjacent word pair of every sentence counted, in order.
    pub fn calc_digrams(corpus: Vec<Vec<&'static str>>) -> (r: Model)
        requires
            forall|i: int| 0 <= i < corpus@.len() ==> (#[trigger] corpus@[i])@.len() >= 1,
            corpus.deep_view().flatten().len() <= u32::MAX,
        ensures
            r.wf(),
            r.spec_words() == spec_tally(
                Map::<Seq<char>, nat>::empty(),
                corpus.deep_view().flatten(),
            ),
            r.spec_digrams() == spec_tally(
                Map::<Seq<Seq<char>>, nat>::empty(),
                corpus_digrams(corpus.deep_view()),
            ),
    {
        broadcast use Seq::lemma_flatten_push;

        let ghost dv = corpus.deep_view();
        let ghost allwords = dv.flatten();
        let ghost alldigrams = corpus_digrams(dv);
        let mut model = Model { word_counts: Vec::new(), ngram_counts: Vec::new() };
        let mut s: usize = 0;
        proof {
            assert(dv.take(0).map_values(|x: Seq<Seq<char>>| sentence_digrams(x))
                =~= Seq::<Seq<Seq<Seq<char>>>>::empty());
            assert(dv.take(0).flatten() =~= Seq::<Seq<char>>::empty());
            assert(corpus_digrams(dv.take(0)) =~= Seq::<Seq<Seq<char>>>::empty());
            assert(forall|i: int| 0 <= i < dv.len() ==> (#[trigger] dv[i]).len() >= 1) by {
                assert(forall|i: int|
                    0 <= i < corpus@.len() ==> (#[trigger] dv[i]).len() == corpus@[i]@.len());
            }
            lemma_digrams_total_bound(dv);
        }
        while s < corpus.len()
            invariant
                dv == corpus.deep_view(),
                allwords == dv.flatten(),
                alldigrams == corpus_digrams(dv),
                allwords.len() <= u32::MAX,
                alldigrams.len() <= allwords.len(),
                forall|i: int| 0 <= i < corpus@.len() ==> (#[trigger] corpus@[i])@.len() >= 1,
                s <= corpus@.len(),
                model.wf(),
                model.spec_words() == spec_tally(
                    Map::<Seq<char>, nat>::empty(),
                    dv.take(s as int).flatten(),
                ),
                model.spec_digrams() == spec_tally(
                    Map::<Seq<Seq<char>>, nat>::empty(),
                    corpus_digrams(dv.take(s as int)),
                ),
                dv.take(s as int).flatten().len() <= allwords.len(),
                corpus_digrams(dv.take(s as int)).len() <= alldigrams.len(),
            decreases corpus@.len() - s,
        {
            let sentence = &corpus[s];
            let ghost sv = dv[s as int];
            let ghost whead = dv.take(s as int).flatten();
            let ghost dhead = corpus_digrams(dv.take(s as int));
            proof {
                assert(dv.take(s + 1) =~= dv.take(s as int).push(sv));
                dv.take(s as int).lemma_flatten_push(sv);
                assert(dv.take(s + 1).flatten() == whead + sv);
                assert(dv.take(s + 1).map_values(|x: Seq<Seq<char>>| sentence_digrams(x))
                    =~= dv.take(s as int).map_values(
                    |x: Seq<Seq<char>>| sentence_digrams(x),
                ).push(sentence_digrams(sv)));
                dv.take(s as int).map_values(
                    |x: Seq<Seq<char>>| sentence_digrams(x),
                ).lemma_flatten_push(sentence_digrams(sv));
                assert(corpus_digrams(dv.take(s + 1)) == dhead + sentence_digrams(sv));
                lemma_take_flatten_prefix(dv, s as int);
                lemma_take_digrams_prefix(dv, s as int);
            }
            let mut w: usize = 0;
            proof {
                assert(whead + sv.take(0) =~= whead);
            }
            while w < sentence.len()
                invariant
                    dv == corpus.deep_view(),
                    allwords == dv.flatten(),
                    allwords.len() <= u32::MAX,
                    s < corpus@.len(),
                    sentence@ == corpus@[s as int]@,
                    sv == dv[s as int],
                    whead == dv.take(s as int).flatten(),
                    whead.len() + sv.len() <= allwords.len(),
                    w <= sentence@.len(),
                    sv.len() == sentence@.len(),
                    model.wf(),
                    model.spec_words() == spec_tally(
                        Map::<Seq<char>, nat>::empty(),
                        whead + sv.take(w as int),
                    ),
                    model.spec_digrams() == spec_tally(
                        Map::<Seq<Seq<char>>, nat>::empty(),
                        corpus_digrams(dv.take(s as int)),
                    ),
                decreases sentence@.len() - w,
            {
                proof {
                    crate::assoc::lemma_tally_bound(
                        Map::<Seq<char>, nat>::empty(),
                        whead + sv.take(w as int),
                        sv[w as int],
                    );
                }
                model.tally_word(sentence[w]);
                w = w + 1;
                proof {
                    assert((whead + sv.take(w as int)).drop_last() =~= whead + sv.take(w - 1));
                    assert((whead + sv.take(w as int)).last() == sv[w - 1]);
                }
            }
            proof {
                assert(sv.take(sentence@.len() as int) =~= sv);
            }
            let mut d: usize = 0;
            proof {
                assert(dhead + sentence_digrams(sv).take(0) =~= dhead);
            }
            while d < sentence.len() - 1
                invariant
                    dv == corpus.deep_view(),
                    allwords == dv.flatten(),
                    alldigrams == corpus_digrams(dv),
                    allwords.len() <= u32::MAX,
                    alldigrams.len() <= allwords.len(),
                    s < corpus@.len(),
                    sentence@ == corpus@[s as int]@,
                    sentence@.len() >= 1,
                    sv == dv[s as int],
                    dhead == corpus_digrams(dv.take(s as int)),
                    dhead.len() + sentence_digrams(sv).len() <= alldigrams.len(),
                    d <= sentence@.len() - 1,
                    sv.len() == sentence@.len(),
                    model.wf(),
                    model.spec_words() == spec_tally(
                        Map::<Seq<char>, nat>::empty(),
                        dv.take(s + 1).flatten(),
                    ),
                    model.spec_digrams() == spec_tally(
                        Map::<Seq<Seq<char>>, nat>::empty(),
                        dhead + sentence_digrams(sv).take(d as int),
                    ),
                decreases sentence@.len() - 1 - d,
            {
                let gram = NGram::new_bigram(sentence[d], sentence[d + 1]);
                proof {
                    assert(gram.spec_items() =~= sentence_digrams(sv)[d as int]);
                    crate::assoc::lemma_tally_bound(
                        Map::<Seq<Seq<char>>, nat>::empty(),
                        dhead + sentence_digrams(sv).take(d as int),
                        gram.spec_items(),
                    );
                }
                model.tally_ngram(gram);
                d = d + 1;
                proof {
                    assert((dhead + sentence_digrams(sv).take(d as int)).drop_last() =~= dhead
                        + sentence_digrams(sv).take(d - 1));
                    assert((dhead + sentence_digrams(sv).take(d as int)).last()
                        == sentence_digrams(sv)[d - 1]);
                }
            }
            s = s + 1;
            proof {
                assert(sentence_digrams(sv).take(sentence@.len() - 1) =~= sentence_digrams(sv));
                assert(dhead + sentence_digrams(sv) =~= corpus_digrams(dv.take(s as int)));
            }
        }
        proof {
            assert(dv.take(corpus@.len() as int) =~= dv);
        }
        model
    }
}

/// A prefix of the corpus holds no more words than the whole.
proof fn lemma_take_flatten_prefix(dv: Seq<Seq<Seq<char>>>, s: int)
    requires
        0 <= s < dv.len(),
    ensures
        dv.take(s + 1).flatten().len() <= dv.flatten().len(),
    decreases dv.len() - s,
{
    broadcast use Seq::lemma_flatten_push;

    if s + 1 == dv.len() {
        assert(dv.take(s + 1) =~= dv);
    } else {
        lemma_take_flatten_prefix(dv, s + 1);
        assert(dv.take(s + 2) =~= dv.take(s + 1).push(dv[s + 1]));
        dv.take(s + 1).lemma_flatten_push(dv[s + 1]);
    }
}

/// A prefix of the corpus holds no more digrams than the whole.
proof fn lemma_take_digrams_prefix(dv: Seq<Seq<Seq<char>>>, s: int)
    requires
        0 <= s < dv.len(),
    ensures
        corpus_digrams(dv.take(s + 1)).len() <= corpus_digrams(dv).len(),
    decreases dv.len() - s,
{
    if s + 1 == dv.len() {
        assert(dv.take(s + 1) =~= dv);
    } else {
        lemma_take_digrams_prefix(dv, s + 1);
        assert(dv.take(s + 2).map_values(|x: Seq<Seq<char>>| sentence_digrams(x)) =~= dv.take(
            s + 1,
        ).map_values(|x: Seq<Seq<char>>| sentence_digrams(x)).push(sentence_digrams(dv[s + 1])));
        dv.take(s + 1).map_values(|x: Seq<Seq<char>>| sentence_digrams(x)).lemma_flatten_push(
            sentence_digrams(dv[s + 1]),
        );
    }
}

/// A corpus of non-empty sentences holds no more digrams than words.
proof fn lemma_digrams_total_bound(dv: Seq<Seq<Seq<char>>>)
    requires
        forall|i: int| 0 <= i < dv.len() ==> (#[trigger] dv[i]).len() >= 1,
    ensures
        corpus_digrams(dv).len() <= dv.flatten().len(),
    decreases dv.len(),
{
    broadcast use Seq::lemma_flatten_push;

    if dv.len() > 0 {
        let head = dv.drop_last();
        assert(forall|i: int| 0 <= i < head.len() ==> #[trigger] head[i] == dv[i]);
        lemma_digrams_total_bound(head);
        assert(dv =~= head.push(dv.last()));
        head.lemma_flatten_push(dv.last());
        assert(dv.map_values(|x: Seq<Seq<char>>| sentence_digrams(x)) =~= head.map_values(
            |x: Seq<Seq<char>>| sentence_digrams(x),
        ).push(sentence_digrams(dv.last())));
        head.map_values(|x: Seq<Seq<char>>| sentence_digrams(x)).lemma_flatten_push(
            sentence_digrams(dv.last()),
        );
    }
}

} // verus!
