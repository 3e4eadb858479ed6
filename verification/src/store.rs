//! The shared series store: the single full-history series, owned
//! exclusively, appended to by the ingestion side and copied wholesale by
//! readers. The callers are expected to guard a `SeriesStore` with one
//! mutual-exclusion primitive and to hold it only across `push` or
//! `snapshot`, so every snapshot is the store's exact content at one instant.

use vstd::prelude::*;
use crate::sample::{Sample, all_wf, time_ordered, MAX_COORD};

verus! {

/// Append-only, time-ordered buffer of samples, never empty: it is created
/// holding one sentinel sample so consumers never see an empty series.
pub struct SeriesStore {
    samples: Vec<Sample>,
}

impl SeriesStore {
    /// The store's content as a mathematical sequence.
    pub closed spec fn view(&self) -> Seq<Sample> {
        self.samples@
    }

    /// Non-empty, bounded coordinates, non-strictly ascending timestamps.
    pub open spec fn wf(&self) -> bool {
        &&& self@.len() >= 1
        &&& all_wf(self@)
        &&& time_ordered(self@)
    }

    /// Timestamp of the newest sample; a later `push` may not go below it.
    pub open spec fn last_timestamp(&self) -> u64
        recommends self@.len() >= 1,
    {
        self@.last().timestamp_ms
    }

    /// Creates the store seeded with the sentinel sample
    /// `(now_ms, 0)`, so the series is never empty.
    pub fn new(now_ms: u64) -> (store: SeriesStore)
        requires
            now_ms <= MAX_COORD,
        ensures
            store.wf(),
            store@ =~= seq![Sample { timestamp_ms: now_ms, value: 0u64 }],
    {
        let samples: Vec<Sample> = vec![Sample { timestamp_ms: now_ms, value: 0u64 }];
        SeriesStore { samples }
    }

    /// Number of samples held.
    pub fn len(&self) -> (n: usize)
        ensures
            n == self@.len(),
    {
        self.samples.len()
    }

    /// Timestamp of the newest sample, for the writer to keep its clock
    /// monotone.
    pub fn newest_timestamp(&self) -> (t: u64)
        requires
            self.wf(),
        ensures
            t == self.last_timestamp(),
    {
        self.samples[self.samples.len() - 1].timestamp_ms
    }

    /// Writer-only append. The new sample must not step back in time, so the
    /// series stays ascending.
    pub fn push(&mut self, sample: Sample)
        requires
            old(self).wf(),
            sample.wf(),
            sample.timestamp_ms >= old(self).last_timestamp(),
        ensures
            final(self).wf(),
            final(self)@ =~= old(self)@.push(sample),
    {
        proof {
            assert(old(self)@.push(sample).last() == sample);
        }
        self.samples.push(sample);
    }

    /// Reader-side copy: the returned series is exactly the store's content
    /// at the instant of the call — time-ordered, with no gap and no
    /// partially written sample.
    pub fn snapshot(&self) -> (copy: Vec<Sample>)
        requires
            self.wf(),
        ensures
            copy@ =~= self@,
            copy@.len() >= 1,
            time_ordered(copy@),
            all_wf(copy@),
    {
        crate::sample::copy_samples(&self.samples)
    }
}

/// A snapshot taken after an append is never shorter than one taken before
/// it, and extends it: growth of the store is monotone as snapshots see it.
///
/// `before` is the store's content when an earlier snapshot was taken and
/// `after` its content at any later instant, the store having only been
/// `push`ed in between.
pub proof fn lemma_snapshot_monotone(before: Seq<Sample>, after: Seq<Sample>, pushed: Seq<Sample>)
    requires
        after =~= before + pushed,
    ensures
        after.len() >= before.len(),
        forall|i: int| 0 <= i < before.len() ==> after[i] == before[i],
{
}

} // verus!
