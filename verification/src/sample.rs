//! The basic data model: a `Sample` is one `(timestamp, value)` reading, a
//! series is a `Vec<Sample>` ordered by timestamp (non-strictly ascending).
//!
//! Timestamps are milliseconds since the Unix epoch and values are the
//! unsigned integers read off the device. Both are kept below `MAX_COORD` so
//! that the exact triangle-area arithmetic of the downsampler fits in
//! fixed-width integers.

use vstd::prelude::*;

verus! {

/// Upper bound on a sample's timestamp (milliseconds) and value.
///
/// `2^48 - 1` milliseconds reaches far beyond any realistic session while
/// leaving enough headroom for the downsampler's exact cross products to fit
/// in `i128`.
pub const MAX_COORD: u64 = 0xFFFF_FFFF_FFFF;

/// One sensor reading: a point in time (milliseconds since the Unix epoch)
/// and the scalar value read at that time. Immutable once created.
#[derive(Clone, Copy, Debug, PartialEq, Eq, Structural)]
pub struct Sample {
    pub timestamp_ms: u64,
    pub value: u64,
}

impl Sample {
    /// Both coordinates fit the range the exact downsampler arithmetic needs.
    pub open spec fn wf(self) -> bool {
        self.timestamp_ms <= MAX_COORD && self.value <= MAX_COORD
    }

    pub fn new(timestamp_ms: u64, value: u64) -> (s: Sample)
        requires
            timestamp_ms <= MAX_COORD,
            value <= MAX_COORD,
        ensures
            s == (Sample { timestamp_ms, value }),
            s.wf(),
    {
        Sample { timestamp_ms, value }
    }
}

/// Every sample of the series has bounded coordinates.
pub open spec fn all_wf(s: Seq<Sample>) -> bool {
    forall|i: int| 0 <= i < s.len() ==> #[trigger] s[i].wf()
}

/// Timestamps never decrease along the series (equal neighbours allowed).
pub open spec fn time_ordered(s: Seq<Sample>) -> bool {
    forall|i: int, j: int| 0 <= i <= j < s.len() ==> #[trigger] s[i].timestamp_ms <= #[trigger] s[j].timestamp_ms
}

/// Timestamps strictly increase along the series.
pub open spec fn strictly_ascending(s: Seq<Sample>) -> bool {
    forall|i: int, j: int| 0 <= i < j < s.len() ==> #[trigger] s[i].timestamp_ms < #[trigger] s[j].timestamp_ms
}

/// The least and greatest value occurring in a non-empty series: the
/// vertical range a chart of the series must cover.
pub fn value_bounds(s: &Vec<Sample>) -> (r: (u64, u64))
    requires
        s@.len() >= 1,
    ensures
        forall|i: int| 0 <= i < s@.len() ==> r.0 <= #[trigger] s@[i].value && #[trigger] s@[i].value <= r.1,
        exists|i: int| 0 <= i < s@.len() && r.0 == #[trigger] s@[i].value,
        exists|i: int| 0 <= i < s@.len() && r.1 == #[trigger] s@[i].value,
{
    let mut lo: u64 = s[0].value;
    let mut hi: u64 = s[0].value;
    let mut i: usize = 1;
    while i < s.len()
        invariant
            1 <= i <= s@.len(),
            forall|j: int| 0 <= j < i ==> lo <= #[trigger] s@[j].value && #[trigger] s@[j].value <= hi,
            exists|j: int| 0 <= j < i && lo == #[trigger] s@[j].value,
            exists|j: int| 0 <= j < i && hi == #[trigger] s@[j].value,
        decreases s@.len() - i,
    {
        let v = s[i].value;
        if v < lo {
            lo = v;
        }
        if v > hi {
            hi = v;
        }
        i = i + 1;
    }
    (lo, hi)
}

/// An element-for-element copy of a series.
pub fn copy_samples(s: &Vec<Sample>) -> (copy: Vec<Sample>)
    ensures
        copy@ == s@,
{
    let mut copy: Vec<Sample> = Vec::new();
    let mut i: usize = 0;
    while i < s.len()
        invariant
            i <= s@.len(),
            copy@ =~= s@.take(i as int),
        decreases s@.len() - i,
    {
        copy.push(s[i]);
        i = i + 1;
    }
    proof {
        assert(copy@ =~= s@);
    }
    copy
}

} // verus!
