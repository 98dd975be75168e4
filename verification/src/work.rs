//! The work functions a pipeline can bind to its batches: whitelist
//! cleaning, grapheme substitution, lowercase word counting and uppercase
//! emission. Each is a pure function from a batch of lines to a
//! `WorkResult`, as the pipeline's work-function contract asks.

use crate::lm::mle::{count_of, spec_counted, Counter};
use crate::segment::{graphemes_of, split_graphemes};
use crate::subst::{spec_substituted, SubstitutionTable};
use crate::tokens::{count_separators, spec_tokens, split_line};
use crate::views::lemma_deep_view_push;
use vstd::prelude::*;
use vstd::seq_lib::lemma_flatten_concat;

verus! {

/// The lowercase form of a string, as `str::to_lowercase` yields it; a
/// function of the characters alone.
pub uninterp spec fn lower_of(s: Seq<char>) -> Seq<char>;

/// Relies on `str::to_lowercase`: the result depends on the characters of
/// `s` alone.
#[verifier::external_body]
fn to_lower(s: &str) -> (r: String)
    ensures
        r@ == lower_of(s@),
{
    s.to_lowercase()
}

/// The uppercase form of a string, as `str::to_uppercase` yields it; a
/// function of the characters alone.
pub uninterp spec fn upper_of(s: Seq<char>) -> Seq<char>;

/// Relies on `str::to_uppercase`: the result depends on the characters of
/// `s` alone.
#[verifier::external_body]
fn to_upper(s: &str) -> (r: String)
    ensures
        r@ == upper_of(s@),
{
    s.to_uppercase()
}

/// A line cleaned against a whitelist: the grapheme clusters the whitelist
/// holds, concatenated in order; everything else dropped.
pub open spec fn spec_cleaned(gs: Seq<Seq<char>>, whitelist: Seq<Seq<char>>) -> Seq<char>
    decreases gs.len(),
{
    if gs.len() == 0 {
        Seq::empty()
    } else {
        spec_cleaned(gs.drop_last(), whitelist) + (if whitelist.contains(gs.last()) {
            gs.last()
        } else {
            Seq::empty()
        })
    }
}

/// How the whitelist work function rewrites one line.
pub open spec fn spec_clean_line(l: Seq<char>, whitelist: Seq<Seq<char>>) -> Seq<char> {
    spec_cleaned(graphemes_of(l), whitelist)
}

/// Whether the whitelist holds this grapheme cluster.
fn whitelist_contains(whitelist: &Vec<String>, g: &String) -> (r: bool)
    ensures
        r == whitelist.deep_view().contains(g@),
{
    let mut i: usize = 0;
    while i < whitelist.len()
        invariant
            i <= whitelist@.len(),
            forall|j: int| 0 <= j < i ==> whitelist.deep_view()[j] != g@,
        decreases whitelist@.len() - i,
    {
        if whitelist[i] == *g {
            proof {
                assert(whitelist.deep_view()[i as int] == g@);
            }
            return true;
        }
        i = i + 1;
    }
    proof {
        assert(forall|j: int| 0 <= j < whitelist.deep_view().len() ==> whitelist.deep_view()[j]
            != g@);
    }
    false
}

/// One line cleaned against the whitelist: only the listed grapheme
/// clusters survive, in order.
pub fn clean_line(line: &str, whitelist: &Vec<String>) -> (r: String)
    ensures
        r@ == spec_clean_line(line@, whitelist.deep_view()),
{
    let graphemes = split_graphemes(line);
    let ghost gs = graphemes_of(line@);
    let mut out = String::new();
    let mut i: usize = 0;
    proof {
        assert(gs.take(0) =~= Seq::<Seq<char>>::empty());
    }
    while i < graphemes.len()
        invariant
            i <= graphemes@.len(),
            graphemes.deep_view() == gs,
            out@ == spec_cleaned(gs.take(i as int), whitelist.deep_view()),
        decreases graphemes@.len() - i,
    {
        if whitelist_contains(whitelist, &graphemes[i]) {
            out.append(graphemes[i].as_str());
        }
        i = i + 1;
        proof {
            assert(gs.take(i as int).drop_last() =~= gs.take(i - 1));
            assert(gs.take(i as int).last() == gs[i - 1]);
        }
    }
    proof {
        assert(gs.take(graphemes@.len() as int) =~= gs);
    }
    out
}

/// Every line of a batch cleaned against the whitelist, in order.
pub fn clean_batch(batch: &Vec<String>, whitelist: &Vec<String>) -> (r: Vec<String>)
    ensures
        r.deep_view() == batch.deep_view().map_values(
            |l: Seq<char>| spec_clean_line(l, whitelist.deep_view()),
        ),
{
    let ghost target = batch.deep_view().map_values(
        |l: Seq<char>| spec_clean_line(l, whitelist.deep_view()),
    );
    let mut r: Vec<String> = Vec::new();
    let mut i: usize = 0;
    proof {
        assert(r.deep_view() =~= target.take(0));
    }
    while i < batch.len()
        invariant
            i <= batch@.len(),
            target == batch.deep_view().map_values(
                |l: Seq<char>| spec_clean_line(l, whitelist.deep_view()),
            ),
            r.deep_view() == target.take(i as int),
        decreases batch@.len() - i,
    {
        let x = clean_line(batch[i].as_str(), whitelist);
        let ghost prev = r;
        let ghost xx = x;
        r.push(x);
        i = i + 1;
        proof {
            lemma_deep_view_push(prev, r, xx);
            assert(r.deep_view() =~= target.take(i as int));
        }
    }
    proof {
        assert(target.take(batch@.len() as int) =~= target);
    }
    r
}

/// The whitelist a configuration file denotes: the grapheme clusters of
/// every line, in file order.
pub fn whitelist_from_lines(lines: &Vec<String>) -> (r: Vec<String>)
    ensures
        r.deep_view() == lines.deep_view().map_values(|l: Seq<char>| graphemes_of(l)).flatten(),
{
    let ghost target = lines.deep_view().map_values(|l: Seq<char>| graphemes_of(l));
    let mut per_line: Vec<Vec<String>> = Vec::new();
    let mut i: usize = 0;
    proof {
        assert(per_line.deep_view() =~= target.take(0));
    }
    while i < lines.len()
        invariant
            i <= lines@.len(),
            target == lines.deep_view().map_values(|l: Seq<char>| graphemes_of(l)),
            per_line.deep_view() == target.take(i as int),
        decreases lines@.len() - i,
    {
        let gs = split_graphemes(lines[i].as_str());
        let ghost prev = per_line;
        let ghost gg = gs;
        per_line.push(gs);
        i = i + 1;
        proof {
            lemma_deep_view_push(prev, per_line, gg);
            assert(per_line.deep_view() =~= target.take(i as int));
        }
    }
    proof {
        assert(target.take(lines@.len() as int) =~= target);
    }
    crate::util::flatten(&per_line)
}

/// Every line of a batch uppercased, in order.
pub fn uppercase_batch(batch: &Vec<String>) -> (r: Vec<String>)
    ensures
        r.deep_view() == batch.deep_view().map_values(|l: Seq<char>| upper_of(l)),
{
    let ghost target = batch.deep_view().map_values(|l: Seq<char>| upper_of(l));
    let mut r: Vec<String> = Vec::new();
    let mut i: usize = 0;
    proof {
        assert(r.deep_view() =~= target.take(0));
    }
    while i < batch.len()
        invariant
            i <= batch@.len(),
            target == batch.deep_view().map_values(|l: Seq<char>| upper_of(l)),
            r.deep_view() == target.take(i as int),
        decreases batch@.len() - i,
    {
        let x = to_upper(batch[i].as_str());
        let ghost prev = r;
        let ghost xx = x;
        r.push(x);
        i = i + 1;
        proof {
            lemma_deep_view_push(prev, r, xx);
            assert(r.deep_view() =~= target.take(i as int));
        }
    }
    proof {
        assert(target.take(batch@.len() as int) =~= target);
    }
    r
}

/// The lowercased tokens of one line, in order.
pub open spec fn lowered_tokens(l: Seq<char>) -> Seq<Seq<char>> {
    spec_tokens(l, count_separators()).map_values(|t: Seq<char>| lower_of(t))
}

/// The lowercased tokens of a whole batch, line by line.
pub open spec fn batch_tokens(lines: Seq<Seq<char>>) -> Seq<Seq<char>> {
    lines.map_values(|l: Seq<char>| lowered_tokens(l)).flatten()
}

/// How many tokens a batch holds, before any case folding.
pub open spec fn batch_token_count(lines: Seq<Seq<char>>) -> nat {
    lines.map_values(|l: Seq<char>| spec_tokens(l, count_separators())).flatten().len()
}

/// Case folding does not change how many tokens a batch holds.
pub proof fn lemma_batch_token_count(lines: Seq<Seq<char>>)
    ensures
        batch_tokens(lines).len() == batch_token_count(lines),
    decreases lines.len(),
{
    broadcast use Seq::lemma_flatten_push;

    if lines.len() > 0 {
        let head = lines.drop_last();
        lemma_batch_token_count(head);
        assert(lines =~= head.push(lines.last()));
        assert(lines.map_values(|l: Seq<char>| lowered_tokens(l)) =~= head.map_values(
            |l: Seq<char>| lowered_tokens(l),
        ).push(lowered_tokens(lines.last())));
        head.map_values(|l: Seq<char>| lowered_tokens(l)).lemma_flatten_push(
            lowered_tokens(lines.last()),
        );
        assert(lines.map_values(|l: Seq<char>| spec_tokens(l, count_separators()))
            =~= head.map_values(|l: Seq<char>| spec_tokens(l, count_separators())).push(
            spec_tokens(lines.last(), count_separators()),
        ));
        head.map_values(|l: Seq<char>| spec_tokens(l, count_separators())).lemma_flatten_push(
            spec_tokens(lines.last(), count_separators()),
        );
    } else {
        assert(lines.map_values(|l: Seq<char>| lowered_tokens(l))
            =~= Seq::<Seq<Seq<char>>>::empty());
        assert(lines.map_values(|l: Seq<char>| spec_tokens(l, count_separators()))
            =~= Seq::<Seq<Seq<char>>>::empty());
    }
}

/// The word counts of one batch: every lowercased token counted once.
pub open spec fn spec_count_batch(lines: Seq<Seq<char>>) -> Map<Seq<char>, nat> {
    spec_counted(Map::<Seq<char>, nat>::empty(), batch_tokens(lines))
}

/// The tokens of a batch split at a line boundary are the tokens of the two
/// parts, in order.
pub proof fn lemma_batch_tokens_concat(a: Seq<Seq<char>>, b: Seq<Seq<char>>)
    ensures
        batch_tokens(a + b) == batch_tokens(a) + batch_tokens(b),
{
    let f = |l: Seq<char>| lowered_tokens(l);
    assert((a + b).map_values(f) =~= a.map_values(f) + b.map_values(f));
    lemma_flatten_concat(a.map_values(f), b.map_values(f));
}

/// No token is ever counted more often than tokens were seen.
proof fn lemma_counted_bound(m: Map<Seq<char>, nat>, ts: Seq<Seq<char>>, w: Seq<char>)
    ensures
        count_of(spec_counted(m, ts), w) <= count_of(m, w) + ts.len(),
    decreases ts.len(),
{
    if ts.len() > 0 {
        lemma_counted_bound(m, ts.drop_last(), w);
    }
}

/// The word counts of one batch: every token of every line, lowercased and
/// counted. This is the count pipeline's work function.
pub fn count_batch(lines: &Vec<String>) -> (r: Counter)
    requires
        batch_token_count(lines.deep_view()) <= usize::MAX,
    ensures
        r.wf(),
        r@ == spec_count_batch(lines.deep_view()),
{
    broadcast use Seq::lemma_flatten_push;

    proof {
        lemma_batch_token_count(lines.deep_view());
    }
    let ghost dv = lines.deep_view();
    let ghost total = batch_tokens(dv);
    let mut counter = Counter::new();
    let mut i: usize = 0;
    proof {
        assert(dv.take(0).map_values(|l: Seq<char>| lowered_tokens(l))
            =~= Seq::<Seq<Seq<char>>>::empty());
        assert(batch_tokens(dv.take(0)) =~= Seq::<Seq<char>>::empty());
    }
    while i < lines.len()
        invariant
            dv == lines.deep_view(),
            total == batch_tokens(dv),
            total.len() <= usize::MAX,
            i <= lines@.len(),
            counter.wf(),
            counter@ == spec_counted(Map::<Seq<char>, nat>::empty(), batch_tokens(dv.take(i as int))),
            batch_tokens(dv.take(i as int)).len() <= total.len(),
        decreases lines@.len() - i,
    {
        let toks = split_line(lines[i].as_str());
        let ghost lt = lowered_tokens(dv[i as int]);
        let ghost head = batch_tokens(dv.take(i as int));
        proof {
            assert(dv.take(i + 1) =~= dv.take(i as int).push(dv[i as int]));
            assert(dv.take(i + 1).map_values(|l: Seq<char>| lowered_tokens(l)) =~= dv.take(
                i as int,
            ).map_values(|l: Seq<char>| lowered_tokens(l)).push(lt));
            dv.take(i as int).map_values(|l: Seq<char>| lowered_tokens(l)).lemma_flatten_push(lt);
            assert(batch_tokens(dv.take(i + 1)) == head + lt);
            assert(dv =~= dv.take(i + 1) + dv.skip(i + 1));
            lemma_batch_tokens_concat(dv.take(i + 1), dv.skip(i + 1));
            assert(batch_tokens(dv.take(i + 1)).len() <= total.len());
        }
        let mut j: usize = 0;
        proof {
            assert(head + lt.take(0) =~= head);
        }
        while j < toks.len()
            invariant
                dv == lines.deep_view(),
                total == batch_tokens(dv),
                total.len() <= usize::MAX,
                i < lines@.len(),
                toks.deep_view() == spec_tokens(dv[i as int], count_separators()),
                lt == lowered_tokens(dv[i as int]),
                head == batch_tokens(dv.take(i as int)),
                head.len() + lt.len() <= total.len(),
                j <= toks@.len(),
                lt.len() == toks@.len(),
                counter.wf(),
                counter@ == spec_counted(
                    Map::<Seq<char>, nat>::empty(),
                    head + lt.take(j as int),
                ),
            decreases toks@.len() - j,
        {
            let low = to_lower(toks[j].as_str());
            proof {
                assert(low@ == lt[j as int]);
                lemma_counted_bound(
                    Map::<Seq<char>, nat>::empty(),
                    head + lt.take(j as int),
                    low@,
                );
            }
            counter.update_word(low.as_str());
            j = j + 1;
            proof {
                assert((head + lt.take(j as int)).drop_last() =~= head + lt.take(j - 1));
                assert((head + lt.take(j as int)).last() == lt[j - 1]);
            }
        }
        i = i + 1;
        proof {
            assert(lt.take(toks@.len() as int) =~= lt);
            assert(head + lt =~= batch_tokens(dv.take(i as int)));
        }
    }
    proof {
        assert(dv.take(lines@.len() as int) =~= dv);
    }
    counter
}

/// What a worker sends for one finished batch: the rewritten lines of an
/// emission work function, or the partial word counts of the reduction one.
/// `Failed` is the explicit failure result a per-job failure boundary
/// forwards when a work function dies, so one bad batch never silently
/// shrinks the effective pool; the verified work functions never produce
/// it themselves.
pub enum WorkResult {
    EmittedLines(Vec<String>),
    PartialCounts(Counter),
    Failed,
}

/// The work function a pipeline binds to its batches, with its
/// configuration carried explicitly: the whitelist or substitution table is
/// built once at startup and shared read-only.
pub enum WorkKind {
    CleanWhitelist(Vec<String>),
    Substitute(SubstitutionTable),
    CountWords,
    UppercaseLines,
}

/// What a well-formed `WorkKind` requires of itself and of a batch.
pub open spec fn apply_work_req(kind: WorkKind, lines: Seq<Seq<char>>) -> bool {
    match kind {
        WorkKind::CleanWhitelist(_) => true,
        WorkKind::Substitute(t) => t.wf(),
        WorkKind::CountWords => batch_token_count(lines) <= usize::MAX,
        WorkKind::UppercaseLines => true,
    }
}

/// The result each work kind owes for a batch.
pub open spec fn apply_work_spec(kind: WorkKind, lines: Seq<Seq<char>>, r: WorkResult) -> bool {
    match kind {
        WorkKind::CleanWhitelist(wl) => match r {
            WorkResult::EmittedLines(out) => out.deep_view() == lines.map_values(
                |l: Seq<char>| spec_clean_line(l, wl.deep_view()),
            ),
            _ => false,
        },
        WorkKind::Substitute(t) => match r {
            WorkResult::EmittedLines(out) => out.deep_view() == lines.map_values(
                |l: Seq<char>| spec_substituted(graphemes_of(l), t@),
            ),
            _ => false,
        },
        WorkKind::CountWords => match r {
            WorkResult::PartialCounts(c) => c.wf() && c@ == spec_count_batch(lines),
            _ => false,
        },
        WorkKind::UppercaseLines => match r {
            WorkResult::EmittedLines(out) => out.deep_view() == lines.map_values(
                |l: Seq<char>| upper_of(l),
            ),
            _ => false,
        },
    }
}

/// Runs one work function over one batch: the per-batch transformation a
/// worker applies synchronously to completion.
pub fn apply_work(kind: &WorkKind, batch: &Vec<String>) -> (r: WorkResult)
    requires
        apply_work_req(*kind, batch.deep_view()),
    ensures
        apply_work_spec(*kind, batch.deep_view(), r),
{
    match kind {
        WorkKind::CleanWhitelist(wl) => WorkResult::EmittedLines(clean_batch(batch, wl)),
        WorkKind::Substitute(t) => WorkResult::EmittedLines(
            crate::subst::substitute_batch(batch, t),
        ),
        WorkKind::CountWords => WorkResult::PartialCounts(count_batch(batch)),
        WorkKind::UppercaseLines => WorkResult::EmittedLines(uppercase_batch(batch)),
    }
}

} // verus!
