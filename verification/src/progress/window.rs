//! A sliding window over the bytes that arrived in the last few seconds.
//!
//! Bytes land in fixed sub-second buckets indexed by elapsed time; what counts is the bytes still inside the
//! window, which is aged forward to the time of every reading.

use vstd::prelude::*;

verus! {

/// How many buckets are kept: 30 buckets of 100 milliseconds cover a three second window.
pub const BUCKETS: usize = 30;

/// The largest number that is counted to.
pub open spec fn cap(n: nat) -> nat {
    if n <= u64::MAX {
        n
    } else {
        u64::MAX as nat
    }
}

/// The bytes of the samples that landed in bucket `i`.
pub open spec fn in_bucket(samples: Seq<(int, u64)>, i: int) -> nat
    decreases samples.len(),
{
    if samples.len() == 0 {
        0
    } else {
        in_bucket(samples.drop_last(), i) + if samples.last().0 == i {
            samples.last().1 as nat
        } else {
            0
        }
    }
}

/// The bytes of the samples that landed in bucket `from` or later.
pub open spec fn since(samples: Seq<(int, u64)>, from: int) -> nat
    decreases samples.len(),
{
    if samples.len() == 0 {
        0
    } else {
        since(samples.drop_last(), from) + if samples.last().0 >= from {
            samples.last().1 as nat
        } else {
            0
        }
    }
}

/// The bucket that bytes of bucket `index` are counted in when the newest bucket is `head`: their own, unless
/// that has left the window, when they take the place of a newer one.
pub open spec fn landing(index: int, head: int) -> int {
    if index > head - 30 {
        index
    } else {
        head - (head - index) % 30
    }
}

/// The larger of two bucket indices.
pub open spec fn newest(a: int, b: int) -> int {
    if a < b {
        b
    } else {
        a
    }
}

/// Bytes, counted in a ring of buckets.
pub struct Window {
    buckets: Vec<u64>,
    head: u64,
    samples: Ghost<Seq<(int, u64)>>,
}

impl Window {
    /// What was counted so far: the bucket and the number of bytes of every sample.
    pub closed spec fn samples(self) -> Seq<(int, u64)> {
        self.samples@
    }

    /// The index of the newest bucket that has been aged or written.
    pub closed spec fn head(self) -> int {
        self.head as int
    }

    /// The ring holds, for each bucket inside the window, the bytes that landed in it.
    pub closed spec fn wf(self) -> bool {
        &&& self.buckets@.len() == 30
        &&& forall|i: int|
            self.head - 30 < i <= self.head ==> self.buckets@[i % 30] == cap(
                #[trigger] in_bucket(self.samples@, i),
            )
        &&& forall|k: int| 0 <= k < self.samples@.len() ==> 0 <= (#[trigger] self.samples@[k]).0 <= self.head
    }

    /// An empty window.
    pub fn new() -> (w: Window)
        ensures
            w.wf(),
            w.samples() == Seq::<(int, u64)>::empty(),
            w.head() == 0,
    {
        let mut buckets: Vec<u64> = Vec::new();
        let mut i: usize = 0;
        while i < BUCKETS
            invariant
                i <= 30,
                buckets@.len() == i,
                forall|j: int| 0 <= j < i ==> (#[trigger] buckets@[j]) == 0,
            decreases 30 - i,
        {
            buckets.push(0);
            i += 1;
        }
        Window { buckets, head: 0, samples: Ghost(Seq::empty()) }
    }

    /// Age the window forward: zero every bucket from just past the old head through `index`, so bytes older
    /// than the window leave the sum. Nothing happens when no bucket boundary was crossed, and a gap wider
    /// than the window clears the whole ring exactly once.
    pub fn roll_to(&mut self, index: u64)
        requires
            old(self).wf(),
        ensures
            final(self).wf(),
            final(self).samples() == old(self).samples(),
            final(self).head() == newest(old(self).head(), index as int),
    {
        if index <= self.head {
            return;
        }
        let gap = index - self.head;
        let steps: u64 = if gap < 30 {
            gap
        } else {
            30
        };
        let ghost before = self.buckets@;
        let ghost samples = self.samples@;
        let head = self.head;
        let mut step: u64 = 1;
        while step <= steps
            invariant
                1 <= step <= steps + 1,
                steps <= 30,
                head + steps <= index,
                self.head == head,
                self.samples@ == samples,
                self.buckets@.len() == 30,
                before.len() == 30,
                forall|s: int| 1 <= s < step ==> self.buckets@[#[trigger] ((head + s) % 30)] == 0,
                forall|j: int|
                    0 <= j < 30 && (forall|s: int| 1 <= s < step ==> j != #[trigger] ((head + s) % 30))
                        ==> (#[trigger] self.buckets@[j]) == before[j],
            decreases steps + 1 - step,
        {
            let slot = ((head % 30 + step) % 30) as usize;
            assert(slot == (head + step) % 30);
            self.buckets.set(slot, 0);
            step += 1;
        }
        self.head = index;
        proof {
            assert forall|i: int| self.head - 30 < i <= self.head implies self.buckets@[i % 30] == cap(
                #[trigger] in_bucket(self.samples@, i),
            ) by {
                if i > head {
                    lemma_in_bucket_above(samples, i, head as int);
                    if gap < 30 {
                        let s = i - head;
                        assert((head + s) % 30 == i % 30);
                    } else {
                        let s = 1 + (i - head - 1) % 30;
                        assert((head + s) % 30 == i % 30);
                    }
                } else {
                    assert forall|s: int| 1 <= s < step implies i % 30 != #[trigger] ((head + s) % 30) by {}
                    assert(self.buckets@[i % 30] == before[i % 30]);
                }
            }
        }
    }

    /// Count `bytes` at bucket `index`: age the window forward to it, then drop them in their bucket.
    pub fn add(&mut self, index: u64, bytes: u64)
        requires
            old(self).wf(),
        ensures
            final(self).wf(),
            final(self).head() == newest(old(self).head(), index as int),
            final(self).samples() == old(self).samples().push(
                (landing(index as int, final(self).head()), bytes),
            ),
    {
        self.roll_to(index);
        let slot = (index % 30) as usize;
        let ghost before = self.buckets@;
        let ghost samples = self.samples@;
        let ghost at = landing(index as int, self.head as int);
        let value = self.buckets[slot].saturating_add(bytes);
        self.buckets.set(slot, value);
        proof {
            self.samples@ = self.samples@.push((at, bytes));
            assert(at % 30 == slot);
            assert(self.samples@.drop_last() =~= samples);
            assert forall|i: int| self.head - 30 < i <= self.head implies self.buckets@[i % 30] == cap(
                #[trigger] in_bucket(self.samples@, i),
            ) by {
                assert(before[i % 30] == cap(in_bucket(samples, i)));
                if i != at {
                    assert(i % 30 != slot);
                }
            }
        }
    }

    /// The bytes inside the window.
    pub fn sum(&self) -> (n: u64)
        requires
            self.wf(),
        ensures
            n == cap(since(self.samples(), self.head() - 29)),
    {
        let mut n: u64 = 0;
        let mut k: usize = 0;
        proof {
            lemma_since_above(self.samples@, self.head as int);
        }
        // Walk the ring from the newest bucket to the oldest.
        while k < BUCKETS
            invariant
                k <= 30,
                self.wf(),
                n == cap(since(self.samples@, self.head - k + 1)),
            decreases 30 - k,
        {
            let slot = ((self.head % 30 + 30 - k as u64) % 30) as usize;
            let ghost i = self.head - k;
            assert(slot == i % 30);
            assert(self.buckets@[i % 30] == cap(in_bucket(self.samples@, i)));
            proof {
                lemma_since_step(self.samples@, i);
            }
            n = n.saturating_add(self.buckets[slot]);
            k += 1;
        }
        n
    }
}

/// No sample stands in a bucket past the newest.
proof fn lemma_in_bucket_above(samples: Seq<(int, u64)>, i: int, head: int)
    requires
        i > head,
        forall|k: int| 0 <= k < samples.len() ==> (#[trigger] samples[k]).0 <= head,
    ensures
        in_bucket(samples, i) == 0,
    decreases samples.len(),
{
    if samples.len() > 0 {
        assert(samples[samples.len() - 1].0 <= head);
        lemma_in_bucket_above(samples.drop_last(), i, head);
    }
}

proof fn lemma_since_above(samples: Seq<(int, u64)>, head: int)
    requires
        forall|k: int| 0 <= k < samples.len() ==> (#[trigger] samples[k]).0 <= head,
    ensures
        since(samples, head + 1) == 0,
    decreases samples.len(),
{
    if samples.len() > 0 {
        assert(samples[samples.len() - 1].0 <= head);
        lemma_since_above(samples.drop_last(), head);
    }
}

/// One more bucket back adds the bytes of that bucket.
proof fn lemma_since_step(samples: Seq<(int, u64)>, i: int)
    ensures
        since(samples, i) == since(samples, i + 1) + in_bucket(samples, i),
    decreases samples.len(),
{
    if samples.len() > 0 {
        lemma_since_step(samples.drop_last(), i);
    }
}

/// Samples older than the window do not count, whatever they were.
pub proof fn law_old_samples_leave(samples: Seq<(int, u64)>, from: int)
    requires
        forall|k: int| 0 <= k < samples.len() ==> (#[trigger] samples[k]).0 < from,
    ensures
        since(samples, from) == 0,
    decreases samples.len(),
{
    if samples.len() > 0 {
        assert(samples[samples.len() - 1].0 < from);
        law_old_samples_leave(samples.drop_last(), from);
    }
}

/// A longer wait never counts more bytes: as the window moves on, what is inside it only shrinks.
pub proof fn law_window_shrinks(samples: Seq<(int, u64)>, from: int, later: int)
    requires
        from <= later,
    ensures
        since(samples, later) <= since(samples, from),
    decreases samples.len(),
{
    if samples.len() > 0 {
        law_window_shrinks(samples.drop_last(), from, later);
    }
}

} // verus!
