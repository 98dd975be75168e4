//! Splitting a line into word tokens on a set of separator characters:
//! adjacent separators yield empty tokens, and a line always yields at
//! least one token. The word-count work function splits on space, comma,
//! full stop and semicolon.

use vstd::prelude::*;

verus! {

/// A character the word-count work function splits on.
pub open spec fn is_count_separator(c: char) -> bool {
    c == ' ' || c == ',' || c == '.' || c == ';'
}

/// The word-count separators, as a set.
pub open spec fn count_separators() -> Set<char> {
    Set::new(|c: char| is_count_separator(c))
}

/// The tokens of a line: the maximal runs between separators, in order,
/// empty runs included. An empty line is one empty token.
pub open spec fn spec_tokens(s: Seq<char>, seps: Set<char>) -> Seq<Seq<char>>
    decreases s.len(),
{
    if s.len() == 0 {
        seq![Seq::<char>::empty()]
    } else if seps.contains(s[0]) {
        seq![Seq::<char>::empty()] + spec_tokens(s.drop_first(), seps)
    } else {
        let rest = spec_tokens(s.drop_first(), seps);
        rest.update(0, seq![s[0]] + rest[0])
    }
}

/// A line has at least one token.
pub proof fn lemma_tokens_nonempty(s: Seq<char>, seps: Set<char>)
    ensures
        spec_tokens(s, seps).len() >= 1,
    decreases s.len(),
{
    if s.len() > 0 {
        lemma_tokens_nonempty(s.drop_first(), seps);
    }
}

/// Splitting at the first separator: the separator-free prefix is the first
/// token, and the rest of the line tokenizes on its own.
pub proof fn lemma_tokens_split_at(s: Seq<char>, seps: Set<char>, k: int)
    requires
        0 <= k < s.len(),
        seps.contains(s[k]),
        forall|j: int| 0 <= j < k ==> !seps.contains(#[trigger] s[j]),
    ensures
        spec_tokens(s, seps) == seq![s.take(k)] + spec_tokens(s.skip(k + 1), seps),
    decreases k,
{
    lemma_tokens_nonempty(s.drop_first(), seps);
    if k == 0 {
        assert(s.take(0) =~= Seq::<char>::empty());
        assert(s.skip(1) =~= s.drop_first());
        assert(seq![s.take(0)] + spec_tokens(s.skip(1), seps) =~= seq![Seq::<char>::empty()]
            + spec_tokens(s.drop_first(), seps));
    } else {
        let d = s.drop_first();
        assert(d[k - 1] == s[k]);
        assert(forall|j: int| 0 <= j < k - 1 ==> !seps.contains(#[trigger] d[j]));
        lemma_tokens_split_at(d, seps, k - 1);
        let rest = spec_tokens(d, seps);
        assert(rest == seq![d.take(k - 1)] + spec_tokens(d.skip(k), seps));
        assert(rest[0] == d.take(k - 1));
        assert(seq![s[0]] + d.take(k - 1) =~= s.take(k));
        assert(d.skip(k) =~= s.skip(k + 1));
        assert(rest.update(0, seq![s[0]] + rest[0]) =~= seq![s.take(k)] + spec_tokens(
            s.skip(k + 1),
            seps,
        ));
    }
}

/// A line without separators is a single token.
pub proof fn lemma_tokens_no_separator(s: Seq<char>, seps: Set<char>)
    requires
        forall|j: int| 0 <= j < s.len() ==> !seps.contains(#[trigger] s[j]),
    ensures
        spec_tokens(s, seps) == seq![s],
    decreases s.len(),
{
    if s.len() == 0 {
        assert(s =~= Seq::<char>::empty());
        assert(seq![Seq::<char>::empty()] =~= seq![s]);
    } else {
        let d = s.drop_first();
        lemma_tokens_no_separator(d, seps);
        let rest = spec_tokens(d, seps);
        assert(seq![s[0]] + d =~= s);
        assert(rest[0] == d);
        assert(rest.update(0, seq![s[0]] + rest[0]) =~= seq![s]);
    }
}

/// Whether `c` is one of the counting separators.
fn is_separator_char(c: char) -> (r: bool)
    ensures
        r == count_separators().contains(c),
{
    c == ' ' || c == ',' || c == '.' || c == ';'
}

/// The tokens of `line`, split on the counting separators; adjacent
/// separators yield empty tokens and the result is never empty.
pub fn split_line(line: &str) -> (r: Vec<String>)
    ensures
        r.deep_view() == spec_tokens(line@, count_separators()),
{
    let ghost seps = count_separators();
    let n = line.unicode_len();
    let mut tokens: Vec<String> = Vec::new();
    let mut start: usize = 0;
    let mut i: usize = 0;
    proof {
        assert(line@.skip(0) =~= line@);
        assert(tokens.deep_view() + spec_tokens(line@.skip(0), seps) =~= spec_tokens(
            line@,
            seps,
        ));
    }
    while i < n
        invariant
            seps == count_separators(),
            n == line@.len(),
            start <= i <= n,
            tokens.deep_view() + spec_tokens(line@.skip(start as int), seps) == spec_tokens(
                line@,
                seps,
            ),
            forall|j: int| start <= j < i ==> !seps.contains(#[trigger] line@[j]),
        decreases n - i,
    {
        if is_separator_char(line.get_char(i)) {
            let tok = line.substring_char(start, i).to_owned();
            let ghost prev = tokens;
            let ghost tt = tok;
            tokens.push(tok);
            let ghost sfx = line@.skip(start as int);
            proof {
                crate::views::lemma_deep_view_push(prev, tokens, tt);
                assert(sfx[i - start] == line@[i as int]);
                assert(forall|j: int|
                    0 <= j < i - start ==> #[trigger] sfx[j] == line@[j + start]);
                lemma_tokens_split_at(sfx, seps, i - start);
                assert(sfx.take(i - start) =~= line@.subrange(start as int, i as int));
                assert(sfx.skip(i - start + 1) =~= line@.skip(i + 1));
                assert(tokens.deep_view() + spec_tokens(line@.skip(i + 1), seps)
                    =~= spec_tokens(line@, seps));
            }
            start = i + 1;
        }
        i = i + 1;
    }
    let tok = line.substring_char(start, n).to_owned();
    let ghost prev = tokens;
    let ghost tt = tok;
    tokens.push(tok);
    proof {
        crate::views::lemma_deep_view_push(prev, tokens, tt);
        let sfx = line@.skip(start as int);
        assert(forall|j: int| 0 <= j < sfx.len() ==> #[trigger] sfx[j] == line@[j + start]);
        assert(forall|j: int| 0 <= j < sfx.len() ==> !seps.contains(#[trigger] sfx[j]));
        lemma_tokens_no_separator(sfx, seps);
        assert(sfx =~= line@.subrange(start as int, n as int));
        assert(tokens.deep_view() =~= spec_tokens(line@, seps));
    }
    tokens
}

} // verus!
