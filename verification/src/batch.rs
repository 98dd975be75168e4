//! Batching of an input line stream into fixed-capacity batches.
//!
//! Every input line lands in exactly one batch, order is preserved, every
//! batch but the last is exactly full, and the number of batches is the
//! ceiling of `lines / capacity` (zero batches for an empty input).

use vstd::prelude::*;

verus! {

/// The sequence of lines held by a sequence of batches, in dispatch order.
pub open spec fn flat_lines(batches: Seq<Vec<String>>) -> Seq<String> {
    batches.map_values(|b: Vec<String>| b@).flatten()
}

/// How many batches a run of `len` lines yields at capacity `capacity`:
/// the ceiling of `len / capacity`, hence 0 for an empty input.
pub open spec fn spec_batch_count(len: nat, capacity: nat) -> int
    recommends
        capacity >= 1,
{
    (len + capacity - 1) / (capacity as int)
}

/// Groups `lines` into batches of exactly `capacity` lines, except that the
/// final batch holds whatever remains; no empty batch is produced.
pub fn batch_lines(lines: &Vec<String>, capacity: usize) -> (batches: Vec<Vec<String>>)
    requires
        capacity >= 1,
    ensures
        batches@.len() == spec_batch_count(lines@.len(), capacity as nat),
        flat_lines(batches@) == lines@,
        forall|i: int| 0 <= i < batches@.len() ==> 1 <= #[trigger] batches@[i]@.len() <= capacity,
        forall|i: int| 0 <= i < batches@.len() - 1 ==> #[trigger] batches@[i]@.len() == capacity,
{
    broadcast use Seq::lemma_flatten_push;

    let mut batches: Vec<Vec<String>> = Vec::new();
    let mut current: Vec<String> = Vec::new();
    let mut i: usize = 0;
    proof {
        assert(flat_lines(batches@) + current@ =~= lines@.take(0));
    }
    while i < lines.len()
        invariant
            capacity >= 1,
            i <= lines@.len(),
            current@.len() < capacity,
            forall|j: int| 0 <= j < batches@.len() ==> #[trigger] batches@[j]@.len() == capacity,
            flat_lines(batches@) + current@ == lines@.take(i as int),
            batches@.len() * capacity + current@.len() == i,
        decreases lines@.len() - i,
    {
        current.push(lines[i].clone());
        i = i + 1;
        proof {
            assert(lines@.take(i as int) =~= lines@.take(i - 1).push(lines@[i - 1]));
            assert(flat_lines(batches@) + current@ =~= lines@.take(i as int));
        }
        if current.len() == capacity {
            let ghost n = batches@.len();
            let ghost pre = batches@.map_values(|b: Vec<String>| b@);
            let mut full: Vec<String> = Vec::new();
            core::mem::swap(&mut current, &mut full);
            let ghost fullv = full@;
            batches.push(full);
            proof {
                assert(batches@.map_values(|b: Vec<String>| b@) =~= pre.push(fullv));
                pre.lemma_flatten_push(fullv);
                assert(flat_lines(batches@) + current@ =~= lines@.take(i as int));
                assert((n + 1) * capacity == n * capacity + capacity) by (nonlinear_arith);
            }
        }
    }
    proof {
        assert(lines@.take(i as int) =~= lines@);
    }
    let ghost n = batches@.len();
    let ghost len = lines@.len();
    let ghost cap = capacity as int;
    if current.len() > 0 {
        let ghost pre = batches@.map_values(|b: Vec<String>| b@);
        batches.push(current);
        proof {
            assert(batches@.map_values(|b: Vec<String>| b@) =~= pre.push(batches@.last()@));
            pre.lemma_flatten_push(batches@.last()@);
            assert(flat_lines(batches@) =~= lines@);
            assert((len + cap - 1) / cap == n + 1) by (nonlinear_arith)
                requires
                    cap >= 1,
                    n * cap < len < n * cap + cap,
                    n >= 0,
            ;
        }
    } else {
        proof {
            assert(flat_lines(batches@) + current@ =~= flat_lines(batches@));
            assert((len + cap - 1) / cap == n) by (nonlinear_arith)
                requires
                    cap >= 1,
                    len == n * cap,
                    n >= 0,
            ;
        }
    }
    batches
}

/// Incremental batcher over a line stream: lines are accumulated up to the
/// configured capacity; a full batch is handed back to the caller for
/// dispatch, and `finish` yields the final, possibly short, batch.
pub struct LineBatcher {
    capacity: usize,
    buffer: Vec<String>,
    dispatched: Ghost<Seq<Seq<String>>>,
}

impl LineBatcher {
    /// Capacity the batcher was constructed with.
    pub closed spec fn spec_capacity(self) -> int {
        self.capacity as int
    }

    /// All batches handed back so far, in dispatch order.
    pub closed spec fn spec_dispatched(self) -> Seq<Seq<String>> {
        self.dispatched@
    }

    /// Lines accepted but not yet part of a dispatched batch.
    pub closed spec fn spec_pending(self) -> Seq<String> {
        self.buffer@
    }

    /// Every line accepted so far, in input order.
    pub open spec fn spec_seen(self) -> Seq<String> {
        self.spec_dispatched().flatten() + self.spec_pending()
    }

    /// The batcher's internal consistency: the pending buffer is never full.
    pub closed spec fn wf(self) -> bool {
        &&& self.capacity >= 1
        &&& self.buffer@.len() < self.capacity
    }

    pub fn new(capacity: usize) -> (r: Self)
        requires
            capacity >= 1,
        ensures
            r.wf(),
            r.spec_capacity() == capacity,
            r.spec_dispatched() =~= Seq::<Seq<String>>::empty(),
            r.spec_pending() =~= Seq::<String>::empty(),
    {
        LineBatcher { capacity, buffer: Vec::new(), dispatched: Ghost(Seq::empty()) }
    }

    /// Accepts one line; hands back a full batch exactly when the line fills
    /// the buffer to capacity. The line always lands at the end of the
    /// stream seen so far.
    pub fn push_line(&mut self, line: String) -> (r: Option<Vec<String>>)
        requires
            old(self).wf(),
        ensures
            final(self).wf(),
            final(self).spec_capacity() == old(self).spec_capacity(),
            final(self).spec_seen() == old(self).spec_seen().push(line),
            match r {
                Some(b) => {
                    &&& b@ == old(self).spec_pending().push(line)
                    &&& b@.len() == old(self).spec_capacity()
                    &&& final(self).spec_dispatched() == old(self).spec_dispatched().push(b@)
                    &&& final(self).spec_pending() =~= Seq::<String>::empty()
                },
                None => {
                    &&& final(self).spec_dispatched() == old(self).spec_dispatched()
                    &&& final(self).spec_pending() == old(self).spec_pending().push(line)
                },
            },
    {
        broadcast use Seq::lemma_flatten_push;

        self.buffer.push(line);
        if self.buffer.len() == self.capacity {
            let mut full: Vec<String> = Vec::new();
            core::mem::swap(&mut self.buffer, &mut full);
            proof {
                self.dispatched@ = self.dispatched@.push(full@);
                assert(self.spec_seen() =~= old(self).spec_seen().push(line));
            }
            Some(full)
        } else {
            proof {
                assert(self.spec_seen() =~= old(self).spec_seen().push(line));
            }
            None
        }
    }

    /// Ends the input: hands back the final partial batch, or `None` when the
    /// input length was an exact multiple of the capacity (no empty batch is
    /// ever dispatched).
    pub fn finish(&mut self) -> (r: Option<Vec<String>>)
        requires
            old(self).wf(),
        ensures
            final(self).wf(),
            final(self).spec_capacity() == old(self).spec_capacity(),
            final(self).spec_seen() == old(self).spec_seen(),
            final(self).spec_pending() =~= Seq::<String>::empty(),
            match r {
                Some(b) => {
                    &&& b@ == old(self).spec_pending()
                    &&& b@.len() > 0
                    &&& final(self).spec_dispatched() == old(self).spec_dispatched().push(b@)
                },
                None => {
                    &&& old(self).spec_pending().len() == 0
                    &&& final(self).spec_dispatched() == old(self).spec_dispatched()
                },
            },
    {
        broadcast use Seq::lemma_flatten_push;

        if self.buffer.len() > 0 {
            let mut last: Vec<String> = Vec::new();
            core::mem::swap(&mut self.buffer, &mut last);
            proof {
                self.dispatched@ = self.dispatched@.push(last@);
                assert(self.spec_seen() =~= old(self).spec_seen());
            }
            Some(last)
        } else {
            proof {
                assert(self.spec_seen() =~= old(self).spec_seen());
            }
            None
        }
    }
}

} // verus!
