//! The merge/sink stage: the single consumer of per-batch results. An
//! emission sink streams lines out in arrival order; a reduction sink folds
//! partial counts into one accumulator. Reduction is proved independent of
//! how the input was split into batches.

use crate::lm::mle::{count_of, spec_counted, spec_merge, Counter};
use crate::work::{batch_tokens, lemma_batch_tokens_concat, spec_count_batch};
use vstd::prelude::*;

verus! {

/// A message on the result channel: one per-batch result, or the sentinel
/// that ends the sink.
pub enum SinkMessage<R> {
    Result(R),
    Shutdown,
}

/// The sink's state machine: it waits for a message, processes a real
/// result, and terminates on the shutdown sentinel.
#[derive(Clone, Copy, Debug, PartialEq, Eq, Structural)]
pub enum SinkState {
    Waiting,
    Processing,
    Terminated,
}

impl SinkState {
    /// Receiving a message while waiting: the sentinel terminates the sink,
    /// a real result moves it to processing.
    pub fn on_receive(self, shutdown: bool) -> (next: Self)
        requires
            self is Waiting,
        ensures
            next == (if shutdown {
                SinkState::Terminated
            } else {
                SinkState::Processing
            }),
    {
        if shutdown {
            SinkState::Terminated
        } else {
            SinkState::Processing
        }
    }

    /// A handled result returns the sink to waiting.
    pub fn on_handled(self) -> (next: Self)
        requires
            self is Processing,
        ensures
            next is Waiting,
    {
        SinkState::Waiting
    }
}

/// The emission policy: every received batch of lines is appended to the
/// output in arrival order. Order within one batch is preserved exactly;
/// order across batches is whatever the channel delivered.
pub struct EmissionSink {
    state: SinkState,
    out: Vec<String>,
}

impl EmissionSink {
    /// The lines emitted so far, in arrival order.
    pub closed spec fn spec_out(self) -> Seq<String> {
        self.out@
    }

    /// Where the sink stands in its state machine.
    pub closed spec fn spec_state(self) -> SinkState {
        self.state
    }

    pub fn new() -> (r: Self)
        ensures
            r.spec_state() is Waiting,
            r.spec_out() =~= Seq::<String>::empty(),
    {
        EmissionSink { state: SinkState::Waiting, out: Vec::new() }
    }

    /// Handles one real result: its lines are appended, in their order, and
    /// the sink waits again.
    pub fn consume(&mut self, mut lines: Vec<String>)
        requires
            old(self).spec_state() is Waiting,
        ensures
            final(self).spec_state() is Waiting,
            final(self).spec_out() == old(self).spec_out() + lines@,
    {
        self.state = self.state.on_receive(false);
        self.out.append(&mut lines);
        self.state = self.state.on_handled();
    }

    /// Handles the shutdown sentinel: the sink terminates, its output
    /// complete.
    pub fn shutdown(&mut self)
        requires
            old(self).spec_state() is Waiting,
        ensures
            final(self).spec_state() is Terminated,
            final(self).spec_out() == old(self).spec_out(),
    {
        self.state = self.state.on_receive(true);
    }

    /// The collected output of a terminated sink.
    pub fn into_lines(self) -> (r: Vec<String>)
        requires
            self.spec_state() is Terminated,
        ensures
            r@ == self.spec_out(),
    {
        self.out
    }
}

/// The reduction policy: every received partial count table is folded into
/// one accumulator, owned by the sink alone.
pub struct ReductionSink {
    state: SinkState,
    acc: Counter,
}

impl ReductionSink {
    /// The accumulated counts.
    pub closed spec fn spec_acc(self) -> Map<Seq<char>, nat> {
        self.acc@
    }

    /// Where the sink stands in its state machine.
    pub closed spec fn spec_state(self) -> SinkState {
        self.state
    }

    pub closed spec fn wf(self) -> bool {
        self.acc.wf()
    }

    pub fn new() -> (r: Self)
        ensures
            r.wf(),
            r.spec_state() is Waiting,
            r.spec_acc() == Map::<Seq<char>, nat>::empty(),
    {
        ReductionSink { state: SinkState::Waiting, acc: Counter::new() }
    }

    /// Handles one real result: the partial counts are added into the
    /// accumulator, word by word, and the sink waits again.
    pub fn consume(&mut self, partial: &Counter)
        requires
            old(self).wf(),
            partial.wf(),
            old(self).spec_state() is Waiting,
            forall|w: Seq<char>|
                count_of(old(self).spec_acc(), w) + count_of(partial@, w) <= usize::MAX,
        ensures
            final(self).wf(),
            final(self).spec_state() is Waiting,
            final(self).spec_acc() == spec_merge(old(self).spec_acc(), partial@),
    {
        self.state = self.state.on_receive(false);
        proof {
            assert forall|w: Seq<char>|
                count_of(old(self).acc@, w) + count_of(partial@, w) <= usize::MAX by {
                assert(count_of(old(self).spec_acc(), w) + count_of(partial@, w) <= usize::MAX);
            }
        }
        self.acc.merge_from(partial);
        self.state = self.state.on_handled();
    }

    /// Handles the shutdown sentinel: the sink terminates, the accumulator
    /// final.
    pub fn shutdown(&mut self)
        requires
            old(self).spec_state() is Waiting,
        ensures
            final(self).spec_state() is Terminated,
            final(self).spec_acc() == old(self).spec_acc(),
            final(self).wf() == old(self).wf(),
    {
        self.state = self.state.on_receive(true);
    }

    /// The final accumulator of a terminated sink, read only after the pool
    /// has been drained and the sink has terminated.
    pub fn into_counts(self) -> (r: Counter)
        requires
            self.spec_state() is Terminated,
        ensures
            r.wf() == self.wf(),
            r@ == self.spec_acc(),
    {
        self.acc
    }
}

/// A sequence of partial count tables folded together, in order.
pub open spec fn spec_merge_all(counts: Seq<Map<Seq<char>, nat>>) -> Map<Seq<char>, nat>
    decreases counts.len(),
{
    if counts.len() == 0 {
        Map::empty()
    } else {
        spec_merge(spec_merge_all(counts.drop_last()), counts.last())
    }
}

/// Merging with an empty table changes nothing.
proof fn lemma_merge_empty(m: Map<Seq<char>, nat>)
    ensures
        spec_merge(m, Map::<Seq<char>, nat>::empty()) == m,
{
    assert(spec_merge(m, Map::<Seq<char>, nat>::empty()) =~= m);
}

/// Counting a concatenation counts the two parts in turn.
proof fn lemma_counted_concat(m: Map<Seq<char>, nat>, s1: Seq<Seq<char>>, s2: Seq<Seq<char>>)
    ensures
        spec_counted(m, s1 + s2) == spec_counted(spec_counted(m, s1), s2),
    decreases s2.len(),
{
    if s2.len() == 0 {
        assert(s1 + s2 =~= s1);
    } else {
        lemma_counted_concat(m, s1, s2.drop_last());
        assert((s1 + s2).drop_last() =~= s1 + s2.drop_last());
        assert((s1 + s2).last() == s2.last());
    }
}

/// Counting on top of a merge is merging with the count.
proof fn lemma_counted_merge(
    m1: Map<Seq<char>, nat>,
    m2: Map<Seq<char>, nat>,
    s: Seq<Seq<char>>,
)
    ensures
        spec_counted(spec_merge(m1, m2), s) == spec_merge(m1, spec_counted(m2, s)),
    decreases s.len(),
{
    if s.len() > 0 {
        lemma_counted_merge(m1, m2, s.drop_last());
        let w = s.last();
        let a = spec_counted(spec_merge(m1, m2), s.drop_last());
        let b = spec_counted(m2, s.drop_last());
        assert(a == spec_merge(m1, b));
        assert(a.insert(w, count_of(a, w) + 1) =~= spec_merge(
            m1,
            b.insert(w, count_of(b, w) + 1),
        ));
    }
}

/// Reduction is independent of batching: folding the per-batch word counts
/// of any split of the input equals counting the whole input at once. This
/// is why any number of workers, handed any batches, reduces to the same
/// accumulator as a single-threaded count.
pub proof fn lemma_reduction_correct(batches: Seq<Seq<Seq<char>>>)
    ensures
        spec_merge_all(batches.map_values(|b: Seq<Seq<char>>| spec_count_batch(b)))
            == spec_count_batch(batches.flatten()),
    decreases batches.len(),
{
    let f = |b: Seq<Seq<char>>| spec_count_batch(b);
    if batches.len() == 0 {
        assert(batches.flatten() =~= Seq::<Seq<char>>::empty());
        assert(batch_tokens(Seq::<Seq<char>>::empty()).len() == 0) by {
            assert(Seq::<Seq<char>>::empty().map_values(
                |l: Seq<char>| crate::work::lowered_tokens(l),
            ) =~= Seq::<Seq<Seq<char>>>::empty());
            assert(Seq::<Seq<Seq<char>>>::empty().flatten() =~= Seq::<Seq<char>>::empty());
        }
        assert(batches.map_values(f) =~= Seq::<Map<Seq<char>, nat>>::empty());
    } else {
        let rest = batches.drop_last();
        let b = batches.last();
        lemma_reduction_correct(rest);
        assert(batches.map_values(f).drop_last() =~= rest.map_values(f));
        assert(batches.map_values(f).last() == f(b));
        assert(spec_merge_all(batches.map_values(f)) == spec_merge(
            spec_merge_all(rest.map_values(f)),
            spec_count_batch(b),
        ));
        // The flattened input splits at the last batch boundary.
        assert(batches =~= rest.push(b));
        rest.lemma_flatten_push(b);
        let x = rest.flatten();
        assert(batches.flatten() == x + b);
        // Counting the whole equals counting the head then the last batch.
        lemma_batch_tokens_concat(x, b);
        lemma_counted_concat(
            Map::<Seq<char>, nat>::empty(),
            batch_tokens(x),
            batch_tokens(b),
        );
        assert(spec_count_batch(x + b) == spec_counted(spec_count_batch(x), batch_tokens(b)));
        // Counting on top of an accumulator is merging with the batch count.
        lemma_merge_empty(spec_count_batch(x));
        lemma_counted_merge(
            spec_count_batch(x),
            Map::<Seq<char>, nat>::empty(),
            batch_tokens(b),
        );
        assert(spec_counted(spec_count_batch(x), batch_tokens(b)) == spec_merge(
            spec_count_batch(x),
            spec_count_batch(b),
        ));
    }
}

} // verus!
