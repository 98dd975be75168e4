//! Word counting and vocabulary lookup with an unknown-word cutoff.

use crate::assoc::{
    distinct_keys, lemma_assoc_map_dom, lemma_assoc_map_index, lemma_assoc_map_push,
    lemma_assoc_map_update, spec_assoc_map,
};
use vstd::prelude::*;

verus! {

/// The count a map holds for a word; zero when the word is absent.
pub open spec fn count_of(m: Map<Seq<char>, nat>, w: Seq<char>) -> nat {
    if m.contains_key(w) {
        m[w]
    } else {
        0
    }
}

/// One word counted: its count raised by one, other words untouched.
pub open spec fn spec_bump(m: Map<Seq<char>, nat>, w: Seq<char>) -> Map<Seq<char>, nat> {
    m.insert(w, count_of(m, w) + 1)
}

/// A sequence of words counted into `m`, in order.
pub open spec fn spec_counted(m: Map<Seq<char>, nat>, words: Seq<Seq<char>>) -> Map<
    Seq<char>,
    nat,
>
    decreases words.len(),
{
    if words.len() == 0 {
        m
    } else {
        spec_bump(spec_counted(m, words.drop_last()), words.last())
    }
}

/// The entries of a count table, read as key/count pairs.
pub open spec fn viewed_counts(entries: Seq<(String, usize)>) -> Seq<(Seq<char>, nat)> {
    entries.map_values(|p: (String, usize)| (p.0@, p.1 as nat))
}

/// A word-frequency table: how often each word has been seen.
pub struct Counter {
    counts: Vec<(String, usize)>,
}

impl View for Counter {
    type V = Map<Seq<char>, nat>;

    closed spec fn view(&self) -> Map<Seq<char>, nat> {
        spec_assoc_map(viewed_counts(self.counts@))
    }
}

impl Counter {
    /// Internal consistency: every word has exactly one entry.
    pub closed spec fn wf(self) -> bool {
        distinct_keys(viewed_counts(self.counts@))
    }

    pub fn new() -> (r: Self)
        ensures
            r.wf(),
            r@ == Map::<Seq<char>, nat>::empty(),
    {
        Counter { counts: Vec::new() }
    }

    /// The entry index holding `word`, if one does.
    fn find(&self, word: &String) -> (r: Option<usize>)
        ensures
            match r {
                Some(i) => i < self.counts@.len() && self.counts@[i as int].0@ == word@,
                None => forall|j: int|
                    0 <= j < self.counts@.len() ==> (#[trigger] self.counts@[j]).0@ != word@,
            },
    {
        let mut i: usize = 0;
        while i < self.counts.len()
            invariant
                i <= self.counts@.len(),
                forall|j: int| 0 <= j < i ==> (#[trigger] self.counts@[j]).0@ != word@,
            decreases self.counts@.len() - i,
        {
            if self.counts[i].0 == *word {
                return Some(i);
            }
            i = i + 1;
        }
        None
    }

    /// Counts `word` another `n` times.
    pub fn add(&mut self, word: &str, n: usize)
        requires
            old(self).wf(),
            count_of(old(self)@, word@) + n <= usize::MAX,
        ensures
            final(self).wf(),
            final(self)@ == old(self)@.insert(word@, (count_of(old(self)@, word@) + n) as nat),
    {
        let w = word.to_owned();
        let ghost pre = viewed_counts(self.counts@);
        match self.find(&w) {
            Some(i) => {
                proof {
                    assert(pre[i as int] == (self.counts@[i as int].0@, self.counts@[
                        i as int
                    ].1 as nat));
                    lemma_assoc_map_index(pre, i as int);
                }
                let key = self.counts[i].0.clone();
                let c = self.counts[i].1;
                self.counts[i] = (key, c + n);
                proof {
                    assert(viewed_counts(self.counts@) =~= pre.update(
                        i as int,
                        (pre[i as int].0, (c + n) as nat),
                    ));
                    lemma_assoc_map_update(pre, i as int, (c + n) as nat);
                }
            },
            None => {
                proof {
                    lemma_assoc_map_dom(pre, word@);
                    assert(!old(self)@.contains_key(word@));
                }
                self.counts.push((w, n));
                proof {
                    assert(viewed_counts(self.counts@) =~= pre.push((word@, n as nat)));
                    lemma_assoc_map_push(pre, (word@, n as nat));
                }
            },
        }
    }

    /// Counts one occurrence of `word`.
    pub fn update_word(&mut self, word: &str)
        requires
            old(self).wf(),
            count_of(old(self)@, word@) < usize::MAX,
        ensures
            final(self).wf(),
            final(self)@ == spec_bump(old(self)@, word@),
    {
        self.add(word, 1);
    }

    /// Counts every word of `sentence`, in order.
    pub fn update_sentence(&mut self, sentence: &Vec<String>)
        requires
            old(self).wf(),
            forall|w: Seq<char>| count_of(old(self)@, w) + sentence@.len() <= usize::MAX,
        ensures
            final(self).wf(),
            final(self)@ == spec_counted(old(self)@, sentence.deep_view()),
    {
        let ghost words = sentence.deep_view();
        let mut i: usize = 0;
        proof {
            assert(words.take(0) =~= Seq::<Seq<char>>::empty());
        }
        while i < sentence.len()
            invariant
                old(self).wf(),
                i <= sentence@.len(),
                words == sentence.deep_view(),
                forall|w: Seq<char>| count_of(old(self)@, w) + sentence@.len() <= usize::MAX,
                self.wf(),
                self@ == spec_counted(old(self)@, words.take(i as int)),
                forall|w: Seq<char>| count_of(self@, w) <= count_of(old(self)@, w) + i,
            decreases sentence@.len() - i,
        {
            let ghost prestate = self@;
            self.update_word(sentence[i].as_str());
            i = i + 1;
            proof {
                assert(words.take(i as int).drop_last() =~= words.take(i - 1));
                assert(words.take(i as int).last() == words[i - 1]);
                assert(self@ == spec_bump(prestate, words[i - 1]));
            }
        }
        proof {
            assert(words.take(sentence@.len() as int) =~= words);
        }
    }

    /// How often `word` has been counted.
    pub fn get(&self, word: &str) -> (r: usize)
        requires
            self.wf(),
        ensures
            r == count_of(self@, word@),
    {
        let w = word.to_owned();
        let ghost pre = viewed_counts(self.counts@);
        match self.find(&w) {
            Some(i) => {
                proof {
                    lemma_assoc_map_index(pre, i as int);
                }
                self.counts[i].1
            },
            None => {
                proof {
                    lemma_assoc_map_dom(pre, word@);
                }
                0
            },
        }
    }

    /// Surrenders the table as its entry pairs; each counted word appears
    /// exactly once.
    pub fn into_entries(self) -> (r: Vec<(String, usize)>)
        ensures
            spec_assoc_map(viewed_counts(r@)) == self@,
            self.wf() ==> distinct_keys(viewed_counts(r@)),
    {
        self.counts
    }

    /// Folds another table into this one: every word ends up with the sum
    /// of its two counts.
    pub fn merge_from(&mut self, other: &Counter)
        requires
            old(self).wf(),
            other.wf(),
            forall|w: Seq<char>|
                count_of(old(self)@, w) + count_of(other@, w) <= usize::MAX,
        ensures
            final(self).wf(),
            final(self)@ == spec_merge(old(self)@, other@),
    {
        let ghost ov = viewed_counts(other.counts@);
        let mut j: usize = 0;
        proof {
            assert(ov.take(0) =~= Seq::<(Seq<char>, nat)>::empty());
            assert(self@ =~= spec_merge(old(self)@, spec_assoc_map(ov.take(0))));
        }
        while j < other.counts.len()
            invariant
                old(self).wf(),
                other.wf(),
                ov == viewed_counts(other.counts@),
                forall|w: Seq<char>|
                    count_of(old(self)@, w) + count_of(other@, w) <= usize::MAX,
                j <= other.counts@.len(),
                self.wf(),
                self@ == spec_merge(old(self)@, spec_assoc_map(ov.take(j as int))),
            decreases other.counts@.len() - j,
        {
            let ghost k = ov[j as int].0;
            let ghost part = spec_assoc_map(ov.take(j as int));
            proof {
                lemma_assoc_map_index(ov, j as int);
                assert(distinct_keys(ov.take(j as int)));
                lemma_assoc_map_dom(ov.take(j as int), k);
                assert(forall|t: int| 0 <= t < j ==> #[trigger] ov.take(j as int)[t] == ov[t]);
                assert(!part.contains_key(k));
                assert(count_of(self@, k) == count_of(old(self)@, k));
                assert(count_of(other@, k) == ov[j as int].1);
            }
            let word = other.counts[j].0.clone();
            let n = other.counts[j].1;
            self.add(word.as_str(), n);
            j = j + 1;
            proof {
                assert(ov.take(j as int) =~= ov.take(j - 1).push(ov[j - 1]));
                lemma_assoc_map_push(ov.take(j - 1), ov[j - 1]);
                assert(spec_assoc_map(ov.take(j as int)) == part.insert(k, ov[j - 1].1));
                assert(self@ =~= spec_merge(old(self)@, spec_assoc_map(ov.take(j as int))));
            }
        }
        proof {
            assert(ov.take(other.counts@.len() as int) =~= ov);
        }
    }
}

/// Two count tables folded together: every word carries the sum of its two
/// counts.
pub open spec fn spec_merge(m1: Map<Seq<char>, nat>, m2: Map<Seq<char>, nat>) -> Map<
    Seq<char>,
    nat,
> {
    Map::new(
        |w: Seq<char>| m1.contains_key(w) || m2.contains_key(w),
        |w: Seq<char>| count_of(m1, w) + count_of(m2, w),
    )
}

/// A vocabulary over a word-frequency table: words seen more often than the
/// cutoff are themselves; all others read as the unknown-word label.
pub struct Vocabulary {
    cutoff: usize,
    counter: Counter,
    unk_label: String,
}

impl Vocabulary {
    /// The word counts behind the vocabulary.
    pub closed spec fn spec_counts(self) -> Map<Seq<char>, nat> {
        self.counter@
    }

    /// The frequency a word must exceed to be kept.
    pub closed spec fn spec_cutoff(self) -> int {
        self.cutoff as int
    }

    /// The label unknown words read as.
    pub closed spec fn spec_unk(self) -> Seq<char> {
        self.unk_label@
    }

    pub closed spec fn wf(self) -> bool {
        self.counter.wf()
    }

    /// How the vocabulary reads one word: itself when its count exceeds the
    /// cutoff, the unknown label otherwise.
    pub open spec fn spec_lookup(self, w: Seq<char>) -> Seq<char> {
        if count_of(self.spec_counts(), w) > self.spec_cutoff() {
            w
        } else {
            self.spec_unk()
        }
    }

    pub fn new(cutoff: usize) -> (r: Self)
        ensures
            r.wf(),
            r.spec_counts() == Map::<Seq<char>, nat>::empty(),
            r.spec_cutoff() == cutoff,
            r.spec_unk() == "<UNK>"@,
    {
        Vocabulary { cutoff, counter: Counter::new(), unk_label: "<UNK>".to_owned() }
    }

    /// Counts one occurrence of `word`.
    pub fn update_word(&mut self, word: &str)
        requires
            old(self).wf(),
            count_of(old(self).spec_counts(), word@) < usize::MAX,
        ensures
            final(self).wf(),
            final(self).spec_counts() == spec_bump(old(self).spec_counts(), word@),
            final(self).spec_cutoff() == old(self).spec_cutoff(),
            final(self).spec_unk() == old(self).spec_unk(),
    {
        self.counter.update_word(word);
    }

    /// Counts every word of `sentence`.
    pub fn update_sentence(&mut self, sentence: &Vec<String>)
        requires
            old(self).wf(),
            forall|w: Seq<char>|
                count_of(old(self).spec_counts(), w) + sentence@.len() <= usize::MAX,
        ensures
            final(self).wf(),
            final(self).spec_counts() == spec_counted(
                old(self).spec_counts(),
                sentence.deep_view(),
            ),
            final(self).spec_cutoff() == old(self).spec_cutoff(),
            final(self).spec_unk() == old(self).spec_unk(),
    {
        proof {
            assert forall|w: Seq<char>|
                count_of(old(self).counter@, w) + sentence@.len() <= usize::MAX by {
                assert(count_of(old(self).spec_counts(), w) + sentence@.len() <= usize::MAX);
            }
        }
        self.counter.update_sentence(sentence);
    }

    /// The word itself when seen more often than the cutoff, the unknown
    /// label otherwise.
    pub fn lookup_word(&self, word: &str) -> (r: String)
        requires
            self.wf(),
        ensures
            r@ == self.spec_lookup(word@),
    {
        if self.counter.get(word) > self.cutoff {
            word.to_owned()
        } else {
            self.unk_label.clone()
        }
    }

    /// Every word of `sentence` read through the vocabulary, in order.
    pub fn lookup_sentence(&self, sentence: &Vec<String>) -> (r: Vec<String>)
        requires
            self.wf(),
        ensures
            r.deep_view() == sentence.deep_view().map_values(|w: Seq<char>| self.spec_lookup(w)),
    {
        let ghost target = sentence.deep_view().map_values(|w: Seq<char>| self.spec_lookup(w));
        let mut r: Vec<String> = Vec::new();
        let mut i: usize = 0;
        proof {
            assert(r.deep_view() =~= target.take(0));
        }
        while i < sentence.len()
            invariant
                self.wf(),
                i <= sentence@.len(),
                target == sentence.deep_view().map_values(
                    |w: Seq<char>| self.spec_lookup(w),
                ),
                r.deep_view() == target.take(i as int),
            decreases sentence@.len() - i,
        {
            let x = self.lookup_word(sentence[i].as_str());
            let ghost prev = r;
            let ghost xx = x;
            r.push(x);
            i = i + 1;
            proof {
                crate::views::lemma_deep_view_push(prev, r, xx);
                assert(r.deep_view() =~= target.take(i as int));
            }
        }
        proof {
            assert(target.take(sentence@.len() as int) =~= target);
        }
        r
    }
}

} // verus!
