//! A partition of a frequency range into contiguous bands.

use vstd::prelude::*;
use crate::bits::{is_nan, le, lt, non_negative, rank, at_least_zero, less, nan};
use crate::error::Error;

verus! {

/// A frequency in Hertz, as the bit pattern of a single-precision value.
pub type Frequency = u32;

/// Band boundaries that form a partition: at least two of them, each a number
/// that is not below zero, never descending, and the last above the first.
pub open spec fn ascending(edges: Seq<Frequency>) -> bool {
    &&& edges.len() >= 2
    &&& forall|i: int| 0 <= i < edges.len() ==> non_negative(#[trigger] edges[i])
    &&& forall|i: int, j: int|
        #![trigger edges[i], edges[j]]
        0 <= i <= j < edges.len() ==> rank(edges[i]) <= rank(edges[j])
    &&& lt(edges[0], edges[edges.len() - 1])
}

/// The boundaries of the partition that `Buckets::new` is asked for: the lower
/// cutoff, the interior boundaries, the upper cutoff.
pub open spec fn boundaries(
    lower_cutoff: Frequency,
    upper_cutoff: Frequency,
    interior: Seq<Frequency>,
) -> Seq<Frequency> {
    seq![lower_cutoff] + interior + seq![upper_cutoff]
}

/// The arguments that `Buckets::new` accepts: at least one bucket, one interior
/// boundary between each two neighbours, cutoffs that are numbers with
/// `0 <= lower_cutoff < upper_cutoff`, and interior boundaries that are numbers
/// and never descend from the lower cutoff to the upper one.
pub open spec fn acceptable(
    lower_cutoff: Frequency,
    upper_cutoff: Frequency,
    bucket_count: usize,
    interior: Seq<Frequency>,
) -> bool {
    &&& bucket_count >= 1
    &&& interior.len() == bucket_count - 1
    &&& ascending(boundaries(lower_cutoff, upper_cutoff, interior))
}

/// The bands of a frequency range, in ascending order. Band `i` runs from
/// boundary `i` (inclusive) to boundary `i + 1` (exclusive).
#[derive(Debug)]
pub struct Buckets {
    edges: Vec<Frequency>,
}

impl Clone for Buckets {
    fn clone(&self) -> (r: Self)
        ensures
            r.edges() == self.edges(),
    {
        Buckets { edges: self.edges.clone() }
    }
}

impl Buckets {
    /// All boundaries, ascending: one more than there are bands.
    pub closed spec fn edges(&self) -> Seq<Frequency> {
        self.edges@
    }

    /// The invariant of every value that `new` returns.
    pub open spec fn wf(&self) -> bool {
        ascending(self.edges())
    }

    /// The number of bands.
    pub open spec fn count(&self) -> int {
        self.edges().len() - 1
    }

    /// Where the first band starts.
    pub open spec fn lower(&self) -> Frequency {
        self.edges()[0]
    }

    /// Where the last band ends.
    pub open spec fn upper(&self) -> Frequency {
        self.edges()[self.count()]
    }

    /// Band `i` as a `(start, end)` pair.
    pub open spec fn band(&self, i: int) -> (Frequency, Frequency) {
        (self.edges()[i], self.edges()[i + 1])
    }

    /// Whether band `i` exists and contains `frequency`: start inclusive, end
    /// exclusive.
    pub open spec fn holds(&self, i: int, frequency: Frequency) -> bool {
        &&& 0 <= i < self.count()
        &&& le(self.band(i).0, frequency)
        &&& lt(frequency, self.band(i).1)
    }

    /// Whether `frequency` lies in `[lower, upper)`.
    pub open spec fn covers(&self, frequency: Frequency) -> bool {
        le(self.lower(), frequency) && lt(frequency, self.upper())
    }

    /// Builds the partition of `[lower_cutoff, upper_cutoff)` into
    /// `bucket_count` bands separated by the `bucket_count - 1` boundaries in
    /// `interior`. The caller computes those with its own arithmetic; for
    /// equal-width bands, boundary `k` is `lower + (k + 1) * width`.
    pub fn new(
        lower_cutoff: Frequency,
        upper_cutoff: Frequency,
        bucket_count: usize,
        interior: &[Frequency],
    ) -> (r: Result<Buckets, Error>)
        ensures
            r.is_ok() <==> acceptable(lower_cutoff, upper_cutoff, bucket_count, interior@),
            r.is_err() ==> r == Err::<Buckets, Error>(Error::InvalidRange),
            r.is_ok() ==> r.unwrap().wf() && r.unwrap().edges() == boundaries(
                lower_cutoff,
                upper_cutoff,
                interior@,
            ),
            r.is_ok() ==> r.unwrap().count() == bucket_count && r.unwrap().lower() == lower_cutoff
                && r.unwrap().upper() == upper_cutoff,
    {
        if bucket_count == 0 || interior.len() != bucket_count - 1 {
            return Err(Error::InvalidRange);
        }
        let ghost all = boundaries(lower_cutoff, upper_cutoff, interior@);
        if !at_least_zero(lower_cutoff) {
            assert(all[0] == lower_cutoff);
            return Err(Error::InvalidRange);
        }
        let mut edges: Vec<Frequency> = Vec::new();
        edges.push(lower_cutoff);
        let mut k: usize = 0;
        while k <= interior.len()
            invariant
                k <= interior@.len() + 1,
                interior@.len() < usize::MAX,
                all == boundaries(lower_cutoff, upper_cutoff, interior@),
                edges@ == all.subrange(0, k + 1),
                forall|i: int| 0 <= i <= k ==> non_negative(#[trigger] all[i]),
                forall|i: int, j: int|
                    #![trigger all[i], all[j]]
                    0 <= i <= j <= k ==> rank(all[i]) <= rank(all[j]),
            decreases interior@.len() + 1 - k,
        {
            let next: Frequency = if k < interior.len() {
                interior[k]
            } else {
                upper_cutoff
            };
            assert(all[k + 1] == next);
            let last: Frequency = edges[k];
            if !at_least_zero(next) || less(next, last) {
                assert(!ascending(all)) by {
                    if ascending(all) {
                        assert(rank(all[k as int]) <= rank(all[k + 1]));
                    }
                }
                return Err(Error::InvalidRange);
            }
            edges.push(next);
            k += 1;
            assert(edges@ =~= all.subrange(0, k + 1));
            assert forall|i: int, j: int|
                #![trigger all[i], all[j]]
                0 <= i <= j <= k implies rank(all[i]) <= rank(all[j]) by {
                if j == k && i < k {
                    assert(rank(all[i]) <= rank(all[k - 1]));
                }
            }
        }
        assert(edges@ =~= all);
        if !less(lower_cutoff, upper_cutoff) {
            return Err(Error::InvalidRange);
        }
        Ok(Buckets { edges })
    }

    /// The number of bands.
    pub fn len(&self) -> (n: usize)
        requires
            self.wf(),
        ensures
            n == self.count(),
            n >= 1,
    {
        self.edges.len() - 1
    }

    /// The bands as `(start, end)` pairs, in ascending order: as many as were
    /// asked for, the first starting at the lower cutoff, each ending where the
    /// next starts, the last ending at the upper cutoff.
    pub fn bands(&self) -> (r: Vec<(Frequency, Frequency)>)
        requires
            self.wf(),
        ensures
            r@.len() == self.count(),
            forall|i: int| 0 <= i < self.count() ==> #[trigger] r@[i] == self.band(i),
            r@[0].0 == self.lower(),
            r@[self.count() - 1].1 == self.upper(),
            forall|i: int| 0 <= i < r@.len() ==> le((#[trigger] r@[i]).0, r@[i].1),
            forall|i: int| 0 <= i < r@.len() - 1 ==> (#[trigger] r@[i]).1 == r@[i + 1].0,
    {
        proof {
            lemma_bands_tile(*self);
        }
        let n: usize = self.edges.len() - 1;
        let mut r: Vec<(Frequency, Frequency)> = Vec::new();
        let mut i: usize = 0;
        while i < n
            invariant
                i <= n,
                n == self.count(),
                r@.len() == i,
                forall|k: int| 0 <= k < i ==> #[trigger] r@[k] == self.band(k),
            decreases n - i,
        {
            r.push((self.edges[i], self.edges[i + 1]));
            i += 1;
        }
        r
    }

    /// Where the first band starts. Always `Some`: a partition has a band.
    pub fn lower_cutoff(&self) -> (r: Option<Frequency>)
        requires
            self.wf(),
        ensures
            r == Some(self.lower()),
    {
        Some(self.edges[0])
    }

    /// Where the last band ends. Always `Some`: a partition has a band.
    pub fn upper_cutoff(&self) -> (r: Option<Frequency>)
        requires
            self.wf(),
        ensures
            r == Some(self.upper()),
    {
        Some(self.edges[self.edges.len() - 1])
    }

    /// The index of the band that contains `frequency`, if there is one. There
    /// is one exactly for the frequencies in `[lower, upper)`, and never two.
    /// The bands are searched by bisection.
    pub fn locate(&self, frequency: Frequency) -> (r: Option<usize>)
        requires
            self.wf(),
        ensures
            r.is_some() <==> self.covers(frequency),
            match r {
                Some(i) => self.holds(i as int, frequency) && forall|j: int|
                    self.holds(j, frequency) ==> j == i,
                None => forall|j: int| !self.holds(j, frequency),
            },
    {
        let n: usize = self.edges.len();
        if nan(frequency) || less(frequency, self.edges[0]) || !less(frequency, self.edges[n - 1]) {
            assert forall|j: int| !self.holds(j, frequency) by {
                if 0 <= j < self.count() {
                    assert(rank(self.edges()[0]) <= rank(self.edges()[j]));
                    assert(rank(self.edges()[j + 1]) <= rank(self.edges()[n - 1]));
                }
            }
            return None;
        }
        // The band sought starts at or after `low` and ends at or before `high`.
        let mut low: usize = 0;
        let mut high: usize = n - 1;
        while high - low > 1
            invariant
                low < high < n,
                n == self.edges().len(),
                self.wf(),
                !is_nan(frequency),
                rank(self.edges()[low as int]) <= rank(frequency),
                rank(frequency) < rank(self.edges()[high as int]),
            decreases high - low,
        {
            let middle: usize = low + (high - low) / 2;
            if less(frequency, self.edges[middle]) {
                high = middle;
            } else {
                low = middle;
            }
        }
        assert(rank(self.edges()[0]) <= rank(self.edges()[low as int]));
        assert(rank(self.edges()[low + 1]) <= rank(self.edges()[n - 1]));
        assert forall|j: int| self.holds(j, frequency) implies j == low by {
            if j < low {
                assert(rank(self.edges()[j + 1]) <= rank(self.edges()[low as int]));
            }
            if j > low {
                assert(rank(self.edges()[low + 1]) <= rank(self.edges()[j]));
            }
        }
        Some(low)
    }
}

/// The bands tile the range: each band's start is not above its end, each band
/// ends where the next one starts, the first starts at the lower cutoff and the
/// last ends at the upper cutoff.
pub proof fn lemma_bands_tile(b: Buckets)
    requires
        b.wf(),
    ensures
        b.count() >= 1,
        b.band(0).0 == b.lower(),
        b.band(b.count() - 1).1 == b.upper(),
        forall|i: int| 0 <= i < b.count() ==> le(#[trigger] b.band(i).0, b.band(i).1),
        forall|i: int| 0 <= i < b.count() - 1 ==> #[trigger] b.band(i).1 == b.band(i + 1).0,
{
    assert forall|i: int| 0 <= i < b.count() implies le(#[trigger] b.band(i).0, b.band(i).1) by {
        assert(non_negative(b.edges()[i]));
        assert(non_negative(b.edges()[i + 1]));
        assert(rank(b.edges()[i]) <= rank(b.edges()[i + 1]));
    }
}

/// Every frequency of the range lies in exactly one band, and no frequency
/// outside the range lies in any.
pub proof fn lemma_one_band(b: Buckets, frequency: Frequency)
    requires
        b.wf(),
    ensures
        b.covers(frequency) <==> exists|i: int| b.holds(i, frequency),
        forall|i: int, j: int| b.holds(i, frequency) && b.holds(j, frequency) ==> i == j,
    decreases 0int,
{
    let e = b.edges();
    assert forall|i: int, j: int| b.holds(i, frequency) && b.holds(j, frequency) implies i
        == j by {
        if i < j {
            assert(rank(e[i + 1]) <= rank(e[j]));
        }
        if j < i {
            assert(rank(e[j + 1]) <= rank(e[i]));
        }
    }
    if b.covers(frequency) {
        let i = first_end_above(e, frequency, 0);
        assert(b.holds(i, frequency));
    }
    if exists|i: int| b.holds(i, frequency) {
        let i = choose|i: int| b.holds(i, frequency);
        assert(rank(e[0]) <= rank(e[i]));
        assert(rank(e[i + 1]) <= rank(e[e.len() - 1]));
    }
}

/// Walks up from band `from`, whose start is not above `frequency`, to the
/// band that contains it.
proof fn first_end_above(e: Seq<Frequency>, frequency: Frequency, from: int) -> (i: int)
    requires
        ascending(e),
        0 <= from < e.len() - 1,
        le(e[from], frequency),
        lt(frequency, e[e.len() - 1]),
    ensures
        from <= i < e.len() - 1,
        le(e[i], frequency),
        lt(frequency, e[i + 1]),
    decreases e.len() - from,
{
    assert(non_negative(e[from + 1]));
    if lt(frequency, e[from + 1]) {
        from
    } else {
        first_end_above(e, frequency, from + 1)
    }
}

/// The upper cutoff lies in no band; the lower cutoff lies in the first band
/// whenever that band is not empty.
pub proof fn lemma_cutoffs(b: Buckets)
    requires
        b.wf(),
    ensures
        !b.covers(b.upper()),
        forall|i: int| !b.holds(i, b.upper()),
        b.covers(b.lower()),
        lt(b.band(0).0, b.band(0).1) ==> b.holds(0, b.lower()),
{
    lemma_one_band(b, b.upper());
    assert(non_negative(b.edges()[0]));
}

} // verus!
