//! The analyzer's configuration and the decisions it makes around the
//! transform: which samples form a frame, and which transform bins feed which
//! band.

use vstd::prelude::*;
use crate::bits::{half, le, lt, min, halve, less, minimum, ZERO};
use crate::buckets::{acceptable, boundaries, Buckets, Frequency};
use crate::error::Error;
use crate::sample::Sample;
use crate::window::Window;

verus! {

/// The power of one frequency bin or band, as the bit pattern of a
/// single-precision value.
pub type SignalStrength = u32;

/// Read access to a run of signal strengths.
pub trait Storage: std::ops::Deref<Target = [SignalStrength]> {

}

/// Read and write access to a run of signal strengths.
pub trait StorageMut: std::ops::Deref<Target = [SignalStrength]> + std::ops::DerefMut {

}

impl<T> Storage for T where T: std::ops::Deref<Target = [SignalStrength]> {

}

impl<T> StorageMut for T where T: Storage + std::ops::DerefMut {

}

/// Whether bin `i` of a spectrum of `spectrum_len` values is looked at: the
/// zero-frequency bin and the mirrored upper half are not.
pub open spec fn considered(spectrum_len: int, i: int) -> bool {
    1 <= i <= spectrum_len / 2
}

/// Whether `group` lists, in ascending order and without repeats, exactly the
/// indices in `members`.
pub open spec fn lists(group: Seq<usize>, members: Set<int>) -> bool {
    &&& forall|k: int, l: int| 0 <= k < l < group.len() ==> group[k] < group[l]
    &&& forall|k: int| 0 <= k < group.len() ==> members.contains(#[trigger] group[k] as int)
    &&& forall|i: int| #[trigger]
        members.contains(i) ==> 0 <= i <= usize::MAX && group.contains(i as usize)
}

/// An immutable analyzer configuration: the transform length, the window
/// shape and the bands.
#[derive(Debug)]
pub struct Analyzer {
    fft_buffer_len: usize,
    window: Window,
    buckets: Buckets,
}

impl Clone for Analyzer {
    fn clone(&self) -> (r: Self)
        ensures
            r.frame_len() == self.frame_len(),
            r.shape() == self.shape(),
            r.partition().edges() == self.partition().edges(),
    {
        Analyzer {
            fft_buffer_len: self.fft_buffer_len,
            window: self.window,
            buckets: self.buckets.clone(),
        }
    }
}

impl Analyzer {
    /// The number of samples one transform consumes.
    pub closed spec fn frame_len(&self) -> usize {
        self.fft_buffer_len
    }

    /// The window shape.
    pub closed spec fn shape(&self) -> Window {
        self.window
    }

    /// The bands.
    pub closed spec fn partition(&self) -> Buckets {
        self.buckets
    }

    /// The invariant of every value that `new` returns.
    pub open spec fn wf(&self) -> bool {
        self.partition().wf()
    }

    /// Whether transform bin `i`, with the bin frequencies given, is looked at
    /// and falls into band `band`.
    pub open spec fn feeds(&self, frequencies: Seq<Frequency>, band: int, i: int) -> bool {
        considered(frequencies.len() as int, i) && self.partition().holds(band, frequencies[i])
    }

    /// The bins that feed band `band`.
    pub open spec fn fed(&self, frequencies: Seq<Frequency>, band: int) -> Set<int> {
        Set::new(|i: int| self.feeds(frequencies, band, i))
    }

    /// The upper cutoff that an analyzer works with: the one asked for, or half
    /// the sampling rate if that is lower.
    pub open spec fn clamped(upper_cutoff: Frequency, sampling_rate: Frequency) -> Frequency {
        min(upper_cutoff, half(sampling_rate))
    }

    /// The upper cutoff that `new` will work with for these arguments, for
    /// callers that place their bands between the cutoffs.
    pub fn clamp_upper_cutoff(upper_cutoff: Frequency, sampling_rate: Frequency) -> (r: Frequency)
        ensures
            r == Self::clamped(upper_cutoff, sampling_rate),
    {
        minimum(upper_cutoff, halve(sampling_rate))
    }

    /// Configures an analyzer.
    ///
    /// `interior` holds the `bucket_len - 1` boundaries between the bands of
    /// `[lower_cutoff, clamped(upper_cutoff, sampling_rate))`, as the caller's
    /// arithmetic gave them. A sampling rate that is not above zero is reported
    /// first; then the upper cutoff is lowered to half the sampling rate where
    /// it exceeds it, and a range that `Buckets::new` refuses is reported.
    pub fn new(
        fft_buffer_len: usize,
        bucket_len: usize,
        window: Window,
        lower_cutoff: Frequency,
        upper_cutoff: Frequency,
        sampling_rate: Frequency,
        interior: &[Frequency],
    ) -> (r: Result<Analyzer, Error>)
        ensures
            !lt(ZERO, sampling_rate) ==> r == Err::<Analyzer, Error>(Error::InvalidSamplingRate),
            lt(ZERO, sampling_rate) && !acceptable(
                lower_cutoff,
                Self::clamped(upper_cutoff, sampling_rate),
                bucket_len,
                interior@,
            ) ==> r == Err::<Analyzer, Error>(Error::InvalidRange),
            lt(ZERO, sampling_rate) && acceptable(
                lower_cutoff,
                Self::clamped(upper_cutoff, sampling_rate),
                bucket_len,
                interior@,
            ) ==> {
                &&& r.is_ok()
                &&& r.unwrap().wf()
                &&& r.unwrap().frame_len() == fft_buffer_len
                &&& r.unwrap().shape() == window
                &&& r.unwrap().partition().edges() == boundaries(
                    lower_cutoff,
                    Self::clamped(upper_cutoff, sampling_rate),
                    interior@,
                )
                &&& r.unwrap().partition().count() == bucket_len
                &&& r.unwrap().partition().lower() == lower_cutoff
                &&& r.unwrap().partition().upper() == Self::clamped(upper_cutoff, sampling_rate)
            },
    {
        if !less(ZERO, sampling_rate) {
            return Err(Error::InvalidSamplingRate);
        }
        let upper: Frequency = Self::clamp_upper_cutoff(upper_cutoff, sampling_rate);
        match Buckets::new(lower_cutoff, upper, bucket_len, interior) {
            Ok(buckets) => Ok(Analyzer { fft_buffer_len, window, buckets }),
            Err(_) => Err(Error::InvalidRange),
        }
    }

    /// The number of samples one transform consumes.
    pub fn fft_buffer_len(&self) -> (n: usize)
        ensures
            n == self.frame_len(),
    {
        self.fft_buffer_len
    }

    /// The window shape.
    pub fn window(&self) -> (w: Window)
        ensures
            w == self.shape(),
    {
        self.window
    }

    /// The number of bands.
    pub fn buckets_len(&self) -> (n: usize)
        requires
            self.wf(),
        ensures
            n == self.partition().count(),
            n >= 1,
    {
        self.buckets.len()
    }

    /// The bands as `(start, end)` pairs, in ascending order.
    pub fn buckets(&self) -> (r: Vec<(Frequency, Frequency)>)
        requires
            self.wf(),
        ensures
            r@.len() == self.partition().count(),
            forall|i: int|
                0 <= i < self.partition().count() ==> #[trigger] r@[i] == self.partition().band(i),
            r@[0].0 == self.partition().lower(),
            r@[self.partition().count() - 1].1 == self.partition().upper(),
            forall|i: int| 0 <= i < r@.len() ==> le((#[trigger] r@[i]).0, r@[i].1),
            forall|i: int| 0 <= i < r@.len() - 1 ==> (#[trigger] r@[i]).1 == r@[i + 1].0,
    {
        self.buckets.bands()
    }

    /// Where the first band starts.
    pub fn lower_cutoff(&self) -> (r: Option<Frequency>)
        requires
            self.wf(),
        ensures
            r == Some(self.partition().lower()),
    {
        self.buckets.lower_cutoff()
    }

    /// Where the last band ends: the upper cutoff asked for, or half the
    /// sampling rate if that is lower.
    pub fn upper_cutoff(&self) -> (r: Option<Frequency>)
        requires
            self.wf(),
        ensures
            r == Some(self.partition().upper()),
    {
        self.buckets.upper_cutoff()
    }

    /// The band that `frequency` falls into, if any.
    pub fn locate(&self, frequency: Frequency) -> (r: Option<usize>)
        requires
            self.wf(),
        ensures
            r.is_some() <==> self.partition().covers(frequency),
            match r {
                Some(i) => self.partition().holds(i as int, frequency) && forall|j: int|
                    self.partition().holds(j, frequency) ==> j == i,
                None => forall|j: int| !self.partition().holds(j, frequency),
            },
    {
        self.buckets.locate(frequency)
    }

    /// Selects the frame to transform: the most recent `fft_buffer_len`
    /// samples, in order. Older samples at the front are dropped.
    pub fn latest_samples(&self, samples: &[Sample]) -> (r: Result<Vec<Sample>, Error>)
        ensures
            samples@.len() < self.frame_len() ==> r == Err::<Vec<Sample>, Error>(
                Error::NotEnoughSamples,
            ),
            samples@.len() >= self.frame_len() ==> r.is_ok() && r.unwrap()@
                == samples@.subrange(
                samples@.len() - self.frame_len(),
                samples@.len() as int,
            ),
    {
        let n: usize = samples.len();
        if n < self.fft_buffer_len {
            return Err(Error::NotEnoughSamples);
        }
        let start: usize = n - self.fft_buffer_len;
        let mut frame: Vec<Sample> = Vec::with_capacity(self.fft_buffer_len);
        let mut i: usize = start;
        while i < n
            invariant
                start <= i <= n,
                n == samples@.len(),
                frame@ == samples@.subrange(start as int, i as int),
            decreases n - i,
        {
            frame.push(samples[i]);
            i += 1;
            assert(frame@ =~= samples@.subrange(start as int, i as int));
        }
        Ok(frame)
    }

    /// Assigns transform bins to bands. `frequencies[i]` is the frequency of
    /// bin `i` of a spectrum of `frequencies.len()` values. Entry `b` of the
    /// result lists, ascending, the bins `1 ..= len / 2` whose frequency lies
    /// in band `b`; a band that no bin falls into gets an empty list. The
    /// band's strength is the mean of the spectrum over its list, and zero
    /// where the list is empty.
    pub fn group_bins(&self, frequencies: &[Frequency]) -> (groups: Vec<Vec<usize>>)
        requires
            self.wf(),
        ensures
            groups@.len() == self.partition().count(),
            forall|b: int|
                0 <= b < groups@.len() ==> lists(
                    (#[trigger] groups@[b])@,
                    self.fed(frequencies@, b),
                ),
    {
        let count: usize = self.buckets.len();
        let bands = self.bin_bands(frequencies);
        let mut groups: Vec<Vec<usize>> = Vec::with_capacity(count);
        let mut b: usize = 0;
        while b < count
            invariant
                self.wf(),
                b <= count,
                count == self.partition().count(),
                bands@.len() == frequencies@.len(),
                forall|i: int, c: int|
                    #![trigger self.feeds(frequencies@, c, i)]
                    0 <= i < bands@.len() ==> (self.feeds(frequencies@, c, i) <==> bands@[i]
                        == Some(c as usize) && 0 <= c <= usize::MAX),
                groups@.len() == b,
                forall|c: int|
                    0 <= c < b ==> lists(
                        (#[trigger] groups@[c])@,
                        self.fed(frequencies@, c),
                    ),
            decreases count - b,
        {
            let group = self.pick(frequencies, &bands, b);
            groups.push(group);
            b += 1;
        }
        groups
    }

    /// The band of each transform bin: entry `i` is the band that
    /// `frequencies[i]` lies in, and `None` for a bin that is not looked at (bin
    /// zero and the mirrored upper half) or whose frequency lies in no band.
    pub fn bin_bands(&self, frequencies: &[Frequency]) -> (bands: Vec<Option<usize>>)
        requires
            self.wf(),
        ensures
            bands@.len() == frequencies@.len(),
            forall|i: int, b: int|
                #![trigger self.feeds(frequencies@, b, i)]
                0 <= i < bands@.len() ==> (self.feeds(frequencies@, b, i) <==> bands@[i] == Some(
                    b as usize,
                ) && 0 <= b <= usize::MAX),
    {
        let n: usize = frequencies.len();
        let half: usize = n / 2;
        let mut bands: Vec<Option<usize>> = Vec::with_capacity(n);
        let mut i: usize = 0;
        while i < n
            invariant
                self.wf(),
                i <= n,
                n == frequencies@.len(),
                half == n / 2,
                bands@.len() == i,
                forall|j: int, b: int|
                    #![trigger self.feeds(frequencies@, b, j)]
                    0 <= j < i ==> (self.feeds(frequencies@, b, j) <==> bands@[j] == Some(
                        b as usize,
                    ) && 0 <= b <= usize::MAX),
            decreases n - i,
        {
            let found: Option<usize> = if 1 <= i && i <= half {
                self.buckets.locate(frequencies[i])
            } else {
                None
            };
            bands.push(found);
            i += 1;
        }
        bands
    }

    /// The bins `1 ..= len / 2` whose frequency lies in band `band`, ascending.
    pub fn band_bins(&self, frequencies: &[Frequency], band: usize) -> (group: Vec<usize>)
        requires
            self.wf(),
        ensures
            lists(group@, self.fed(frequencies@, band as int)),
    {
        let bands = self.bin_bands(frequencies);
        self.pick(frequencies, &bands, band)
    }

    fn pick(&self, frequencies: &[Frequency], bands: &Vec<Option<usize>>, band: usize) -> (group:
        Vec<usize>)
        requires
            self.wf(),
            bands@.len() == frequencies@.len(),
            forall|i: int, b: int|
                #![trigger self.feeds(frequencies@, b, i)]
                0 <= i < bands@.len() ==> (self.feeds(frequencies@, b, i) <==> bands@[i] == Some(
                    b as usize,
                ) && 0 <= b <= usize::MAX),
        ensures
            lists(group@, self.fed(frequencies@, band as int)),
    {
        let n: usize = bands.len();
        let mut group: Vec<usize> = Vec::new();
        let mut i: usize = 0;
        while i < n
            invariant
                self.wf(),
                i <= n,
                n == bands@.len(),
                n == frequencies@.len(),
                forall|j: int, b: int|
                    #![trigger self.feeds(frequencies@, b, j)]
                    0 <= j < bands@.len() ==> (self.feeds(frequencies@, b, j) <==> bands@[j]
                        == Some(b as usize) && 0 <= b <= usize::MAX),
                forall|k: int, l: int| 0 <= k < l < group@.len() ==> group@[k] < group@[l],
                forall|k: int|
                    0 <= k < group@.len() ==> group@[k] < i && self.feeds(
                        frequencies@,
                        band as int,
                        #[trigger] group@[k] as int,
                    ),
                forall|j: int|
                    j < i && self.feeds(frequencies@, band as int, j) ==> 0 <= j
                        && group@.contains(j as usize),
            decreases n - i,
        {
            let ghost before = group@;
            let hit: bool = match bands[i] {
                Some(b) => b == band,
                None => false,
            };
            assert(hit <==> self.feeds(frequencies@, band as int, i as int));
            if hit {
                group.push(i);
                assert(group@[before.len() as int] == i);
            }
            assert forall|j: int|
                j < i + 1 && self.feeds(frequencies@, band as int, j) implies 0 <= j
                && group@.contains(j as usize) by {
                if j < i {
                    let k = choose|k: int| 0 <= k < before.len() && before[k] == j as usize;
                    assert(group@[k] == j as usize);
                } else {
                    assert(group@[before.len() as int] == j as usize);
                }
            }
            i += 1;
        }
        assert forall|j: int| #[trigger]
            self.fed(frequencies@, band as int).contains(j) implies 0 <= j <= usize::MAX
            && group@.contains(j as usize) by {
            assert(self.feeds(frequencies@, band as int, j));
        }
        group
    }
}

/// A band that no considered bin falls into has an empty list, and only such a
/// band has one.
pub proof fn lemma_empty_band(group: Seq<usize>, members: Set<int>)
    requires
        lists(group, members),
    ensures
        group.len() == 0 <==> forall|i: int| !members.contains(i),
{
    if group.len() > 0 {
        assert(members.contains(group[0] as int));
    }
    if group.len() == 0 {
        assert forall|i: int| !members.contains(i) by {
            if members.contains(i) {
                assert(group.contains(i as usize));
            }
        }
    }
}

/// Two lists of the same bins are the same list: the assignment of bins to a
/// band is determined by the bin frequencies alone.
pub proof fn lemma_lists_unique(g: Seq<usize>, h: Seq<usize>, members: Set<int>)
    requires
        lists(g, members),
        lists(h, members),
    ensures
        g == h,
    decreases g.len(),
{
    if g.len() == 0 {
        lemma_empty_band(g, members);
        lemma_empty_band(h, members);
    } else if h.len() == 0 {
        lemma_empty_band(g, members);
        lemma_empty_band(h, members);
    } else {
        let gl = g.last();
        let hl = h.last();
        assert(members.contains(gl as int));
        assert(members.contains(hl as int));
        assert(h.contains(gl));
        assert(g.contains(hl));
        assert(gl == hl);
        let rest = members.remove(gl as int);
        let g0 = g.drop_last();
        let h0 = h.drop_last();
        assert(lists(g0, rest)) by {
            assert forall|i: int| #[trigger] rest.contains(i) implies 0 <= i <= usize::MAX && g0.contains(
                i as usize,
            ) by {
                let k = choose|k: int| 0 <= k < g.len() && g[k] == i as usize;
                assert(g0[k] == i as usize);
            }
            assert forall|k: int| 0 <= k < g0.len() implies rest.contains(#[trigger] g0[k] as int) by {
                assert(g[k] < g[g.len() - 1]);
            }
        }
        assert(lists(h0, rest)) by {
            assert forall|i: int| #[trigger] rest.contains(i) implies 0 <= i <= usize::MAX && h0.contains(
                i as usize,
            ) by {
                let k = choose|k: int| 0 <= k < h.len() && h[k] == i as usize;
                assert(h0[k] == i as usize);
            }
            assert forall|k: int| 0 <= k < h0.len() implies rest.contains(#[trigger] h0[k] as int) by {
                assert(h[k] < h[h.len() - 1]);
            }
        }
        lemma_lists_unique(g0, h0, rest);
        assert(g =~= g0.push(gl));
        assert(h =~= h0.push(hl));
    }
}

} // verus!
