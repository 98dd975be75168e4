//! The word-count pipeline core: lines are split on ASCII punctuation and
//! whitespace, and every token is counted. Reading the input and printing
//! the sorted counts stay outside the verified library.

use crate::lm::mle::{count_of, spec_counted, Counter};
use crate::tokens::{
    lemma_tokens_no_separator, lemma_tokens_split_at, spec_tokens,
};
use vstd::prelude::*;

verus! {

/// Whether `c` is whitespace, as `char::is_whitespace` decides it; a
/// function of the character alone.
pub uninterp spec fn is_whitespace_of(c: char) -> bool;

/// Relies on `char::is_whitespace`: the result depends on the character
/// alone.
#[verifier::external_body]
fn whitespace_char(c: char) -> (r: bool)
    ensures
        r == is_whitespace_of(c),
{
    c.is_whitespace()
}

/// Whether `c` is ASCII punctuation: one of the four ASCII ranges
/// `!..=/`, `:..=@`, `[..=`` ` `` and `{..=~`.
pub open spec fn is_ascii_punct(c: char) -> bool {
    ('!' <= c && c <= '/') || (':' <= c && c <= '@') || ('[' <= c && c <= '`') || ('{' <= c && c
        <= '~')
}

/// Whether `c` is ASCII punctuation.
fn ascii_punct_char(c: char) -> (r: bool)
    ensures
        r == is_ascii_punct(c),
{
    ('!' <= c && c <= '/') || (':' <= c && c <= '@') || ('[' <= c && c <= '`') || ('{' <= c && c
        <= '~')
}

/// The separators the word-count pipeline splits on: ASCII punctuation and
/// whitespace.
pub open spec fn pipeline_separators() -> Set<char> {
    Set::new(|c: char| is_ascii_punct(c) || is_whitespace_of(c))
}

/// Whether `c` is a word-count pipeline separator.
fn pipeline_separator_char(c: char) -> (r: bool)
    ensures
        r == pipeline_separators().contains(c),
{
    ascii_punct_char(c) || whitespace_char(c)
}

/// The tokens of one line, split on punctuation and whitespace; adjacent
/// separators yield empty tokens and a line always yields at least one.
pub fn split_pipeline_line(line: &str) -> (r: Vec<String>)
    ensures
        r.deep_view() == spec_tokens(line@, pipeline_separators()),
{
    let ghost seps = pipeline_separators();
    let n = line.unicode_len();
    let mut tokens: Vec<String> = Vec::new();
    let mut start: usize = 0;
    let mut i: usize = 0;
    proof {
        assert(line@.skip(0) =~= line@);
        assert(tokens.deep_view() + spec_tokens(line@.skip(0), seps) =~= spec_tokens(
            line@,
            seps,
        ));
    }
    while i < n
        invariant
            seps == pipeline_separators(),
            n == line@.len(),
            start <= i <= n,
            tokens.deep_view() + spec_tokens(line@.skip(start as int), seps) == spec_tokens(
                line@,
                seps,
            ),
            forall|j: int| start <= j < i ==> !seps.contains(#[trigger] line@[j]),
        decreases n - i,
    {
        if pipeline_separator_char(line.get_char(i)) {
            let tok = line.substring_char(start, i).to_owned();
            let ghost prev = tokens;
            let ghost tt = tok;
            tokens.push(tok);
            let ghost sfx = line@.skip(start as int);
            proof {
                crate::views::lemma_deep_view_push(prev, tokens, tt);
                assert(sfx[i - start] == line@[i as int]);
                assert(forall|j: int|
                    0 <= j < i - start ==> #[trigger] sfx[j] == line@[j + start]);
                lemma_tokens_split_at(sfx, seps, i - start);
                assert(sfx.take(i - start) =~= line@.subrange(start as int, i as int));
                assert(sfx.skip(i - start + 1) =~= line@.skip(i + 1));
                assert(tokens.deep_view() + spec_tokens(line@.skip(i + 1), seps)
                    =~= spec_tokens(line@, seps));
            }
            start = i + 1;
        }
        i = i + 1;
    }
    let tok = line.substring_char(start, n).to_owned();
    let ghost prev = tokens;
    let ghost tt = tok;
    tokens.push(tok);
    proof {
        crate::views::lemma_deep_view_push(prev, tokens, tt);
        let sfx = line@.skip(start as int);
        assert(forall|j: int| 0 <= j < sfx.len() ==> #[trigger] sfx[j] == line@[j + start]);
        assert(forall|j: int| 0 <= j < sfx.len() ==> !seps.contains(#[trigger] sfx[j]));
        lemma_tokens_no_separator(sfx, seps);
        assert(sfx =~= line@.subrange(start as int, n as int));
        assert(tokens.deep_view() =~= spec_tokens(line@, seps));
    }
    tokens
}

/// The tokens of a whole input, line by line.
pub open spec fn corpus_tokens(lines: Seq<Seq<char>>) -> Seq<Seq<char>> {
    lines.map_values(|l: Seq<char>| spec_tokens(l, pipeline_separators())).flatten()
}

/// Every token of every line of the input counted once, without case
/// folding — the compute core of the word-count pipeline. The caller reads
/// the lines and prints the counts.
pub fn count(lines: &Vec<String>) -> (r: Counter)
    requires
        corpus_tokens(lines.deep_view()).len() <= usize::MAX,
    ensures
        r.wf(),
        r@ == spec_counted(Map::<Seq<char>, nat>::empty(), corpus_tokens(lines.deep_view())),
{
    broadcast use Seq::lemma_flatten_push;

    let ghost dv = lines.deep_view();
    let ghost total = corpus_tokens(dv);
    let mut store = Counter::new();
    let mut i: usize = 0;
    proof {
        assert(dv.take(0).map_values(|l: Seq<char>| spec_tokens(l, pipeline_separators()))
            =~= Seq::<Seq<Seq<char>>>::empty());
        assert(corpus_tokens(dv.take(0)) =~= Seq::<Seq<char>>::empty());
    }
    while i < lines.len()
        invariant
            dv == lines.deep_view(),
            total == corpus_tokens(dv),
            total.len() <= usize::MAX,
            i <= lines@.len(),
            store.wf(),
            store@ == spec_counted(
                Map::<Seq<char>, nat>::empty(),
                corpus_tokens(dv.take(i as int)),
            ),
            corpus_tokens(dv.take(i as int)).len() <= total.len(),
        decreases lines@.len() - i,
    {
        let toks = split_pipeline_line(lines[i].as_str());
        let ghost lt = spec_tokens(dv[i as int], pipeline_separators());
        let ghost head = corpus_tokens(dv.take(i as int));
        proof {
            assert(dv.take(i + 1) =~= dv.take(i as int).push(dv[i as int]));
            assert(dv.take(i + 1).map_values(
                |l: Seq<char>| spec_tokens(l, pipeline_separators()),
            ) =~= dv.take(i as int).map_values(
                |l: Seq<char>| spec_tokens(l, pipeline_separators()),
            ).push(lt));
            dv.take(i as int).map_values(
                |l: Seq<char>| spec_tokens(l, pipeline_separators()),
            ).lemma_flatten_push(lt);
            assert(corpus_tokens(dv.take(i + 1)) == head + lt);
            assert(dv =~= dv.take(i + 1) + dv.skip(i + 1));
            lemma_corpus_tokens_concat(dv.take(i + 1), dv.skip(i + 1));
            assert(corpus_tokens(dv.take(i + 1)).len() <= total.len());
        }
        let mut j: usize = 0;
        proof {
            assert(head + lt.take(0) =~= head);
        }
        while j < toks.len()
            invariant
                dv == lines.deep_view(),
                total == corpus_tokens(dv),
                total.len() <= usize::MAX,
                i < lines@.len(),
                toks.deep_view() == spec_tokens(dv[i as int], pipeline_separators()),
                lt == spec_tokens(dv[i as int], pipeline_separators()),
                head == corpus_tokens(dv.take(i as int)),
                head.len() + lt.len() <= total.len(),
                j <= toks@.len(),
                lt.len() == toks@.len(),
                store.wf(),
                store@ == spec_counted(
                    Map::<Seq<char>, nat>::empty(),
                    head + lt.take(j as int),
                ),
            decreases toks@.len() - j,
        {
            proof {
                lemma_counted_le(Map::<Seq<char>, nat>::empty(), head + lt.take(j as int), lt[
                    j as int
                ]);
            }
            store.update_word(toks[j].as_str());
            j = j + 1;
            proof {
                assert((head + lt.take(j as int)).drop_last() =~= head + lt.take(j - 1));
                assert((head + lt.take(j as int)).last() == lt[j - 1]);
            }
        }
        i = i + 1;
        proof {
            assert(lt.take(toks@.len() as int) =~= lt);
            assert(head + lt =~= corpus_tokens(dv.take(i as int)));
        }
    }
    proof {
        assert(dv.take(lines@.len() as int) =~= dv);
    }
    store
}

/// The tokens of an input split at a line boundary are the tokens of the
/// two parts, in order.
proof fn lemma_corpus_tokens_concat(a: Seq<Seq<char>>, b: Seq<Seq<char>>)
    ensures
        corpus_tokens(a + b) == corpus_tokens(a) + corpus_tokens(b),
{
    let f = |l: Seq<char>| spec_tokens(l, pipeline_separators());
    assert((a + b).map_values(f) =~= a.map_values(f) + b.map_values(f));
    vstd::seq_lib::lemma_flatten_concat(a.map_values(f), b.map_values(f));
}

/// No word is ever counted more often than tokens were seen.
proof fn lemma_counted_le(m: Map<Seq<char>, nat>, ts: Seq<Seq<char>>, w: Seq<char>)
    ensures
        count_of(spec_counted(m, ts), w) <= count_of(m, w) + ts.len(),
    decreases ts.len(),
{
    if ts.len() > 0 {
        lemma_counted_le(m, ts.drop_last(), w);
    }
}

} // verus!
