//! A per-patch streaming estimator: a rolling buffer of brightness samples
//! with running statistics, and the choice of the dominant spectral bin.

use vstd::prelude::*;
use vstd::std_specs::range::RangeInclusiveView;
use core::ops::RangeInclusive;
use crate::arith::lemma_quotient_at_most;
use crate::config::{MAGNITUDE_THRESHOLD, MAX_LEVEL, MICRO, MIN_DEVIATION};

verus! {

/// Sum of the samples.
pub open spec fn sum(samples: Seq<u8>) -> nat
    decreases samples.len(),
{
    if samples.len() == 0 {
        0
    } else {
        sum(samples.drop_last()) + samples.last() as nat
    }
}

/// Distance between two numbers.
pub open spec fn distance(a: int, b: int) -> nat {
    if a >= b {
        (a - b) as nat
    } else {
        (b - a) as nat
    }
}

/// Sum of the distances of the samples, each taken in millionths, from `mean`.
pub open spec fn spread(samples: Seq<u8>, mean: nat) -> nat
    decreases samples.len(),
{
    if samples.len() == 0 {
        0
    } else {
        spread(samples.drop_last(), mean) + distance(
            MICRO as int * samples.last() as int,
            mean as int,
        )
    }
}

/// Whether `bin` lies in `band`, as `RangeInclusive::contains` tells it.
pub open spec fn in_band(band: RangeInclusiveView<usize>, bin: int) -> bool {
    band.start <= bin && if band.exhausted {
        bin < band.end
    } else {
        bin <= band.end
    }
}

/// A bin that may be reported: not the constant part (bin 0), in the lower
/// half of the spectrum, and inside the band asked for.
pub open spec fn is_candidate(window: nat, band: RangeInclusiveView<usize>, bin: int) -> bool {
    1 <= bin < window / 2 && in_band(band, bin)
}

/// `bin` is the candidate of greatest magnitude, and the lowest such bin.
pub open spec fn is_peak(
    window: nat,
    band: RangeInclusiveView<usize>,
    magnitudes: Seq<u64>,
    bin: int,
) -> bool {
    &&& is_candidate(window, band, bin)
    &&& forall|other: int| #[trigger]
        is_candidate(window, band, other) ==> magnitudes[other] <= magnitudes[bin] && (other < bin
            ==> magnitudes[other] < magnitudes[bin])
}

/// The peak of the spectrum inside the band, if its magnitude is above
/// [`MAGNITUDE_THRESHOLD`].
pub open spec fn largest_bin_spec(
    window: nat,
    band: RangeInclusiveView<usize>,
    magnitudes: Seq<u64>,
) -> Option<usize> {
    if exists|bin: int|
        is_peak(window, band, magnitudes, bin) && magnitudes[bin] > MAGNITUDE_THRESHOLD {
        Some(
            (choose|bin: int|
                is_peak(window, band, magnitudes, bin) && magnitudes[bin]
                    > MAGNITUDE_THRESHOLD) as usize,
        )
    } else {
        None
    }
}

/// What an oscillator is, mathematically: its window size, the samples it
/// still holds (oldest first) and its running statistics in millionths of a
/// grey level.
#[verifier::ext_equal]
pub struct OscillatorView {
    pub window: nat,
    pub samples: Seq<u8>,
    pub mean: nat,
    pub deviation: nat,
}

impl OscillatorView {
    /// An oscillator that has seen nothing yet.
    pub open spec fn fresh(window: nat) -> OscillatorView {
        OscillatorView { window, samples: Seq::empty(), mean: 0, deviation: 0 }
    }

    /// The window is not empty and the statistics are grey levels.
    pub open spec fn wf(self) -> bool {
        &&& self.window > 0
        &&& self.mean <= MAX_LEVEL
        &&& self.deviation <= MAX_LEVEL
    }

    /// The state after one more sample.
    ///
    /// Until a full window has been seen the statistics rest. The sample that
    /// completes the first window sets them to the mean of the window and to the
    /// mean distance from it. Every later sample `g` moves them by one part in
    /// `window`: the mean towards `g`, the deviation towards the distance of `g`
    /// from the new mean. Quotients are rounded down.
    pub open spec fn push(self, value: u8) -> OscillatorView {
        let samples = self.samples.push(value);
        let w = self.window as int;
        let g = MICRO as int * value as int;
        if samples.len() < self.window {
            OscillatorView { samples, ..self }
        } else if samples.len() == self.window {
            let mean = ((MICRO as int * sum(samples) as int) / w) as nat;
            let deviation = (spread(samples, mean) as int / w) as nat;
            OscillatorView { samples, mean, deviation, ..self }
        } else {
            let mean = ((g + self.mean * (w - 1)) / w) as nat;
            let deviation = ((distance(mean as int, g) + self.deviation * (w - 1)) / w) as nat;
            OscillatorView { samples, mean, deviation, ..self }
        }
    }

    /// The state after truncation: only the last `window` samples are kept.
    pub open spec fn truncate(self) -> OscillatorView {
        if self.samples.len() > self.window {
            OscillatorView {
                samples: self.samples.subrange(
                    self.samples.len() - self.window,
                    self.samples.len() as int,
                ),
                ..self
            }
        } else {
            self
        }
    }

    /// A full window of samples has been seen.
    pub open spec fn warmed(self) -> bool {
        self.samples.len() >= self.window
    }

    /// A full window has been seen and the samples vary enough to be more than
    /// noise.
    pub open spec fn has_signal(self) -> bool {
        self.warmed() && self.deviation >= MIN_DEVIATION
    }

    /// The last `window` samples, oldest first.
    pub open spec fn recent(self) -> Seq<u8>
        recommends
            self.warmed(),
    {
        self.samples.subrange(self.samples.len() - self.window, self.samples.len() as int)
    }

    /// The dominant bin of `magnitudes`, the spectrum of [`Self::recent`],
    /// inside `band`; none while there is no signal or no peak above the
    /// threshold.
    pub open spec fn dominant_bin(
        self,
        band: RangeInclusiveView<usize>,
        magnitudes: Seq<u64>,
    ) -> Option<usize> {
        if self.has_signal() {
            largest_bin_spec(self.window, band, magnitudes)
        } else {
            None
        }
    }
}

/// The bin of greatest magnitude among bins `1 .. window / 2` that lie in
/// `relevant_bins`, the lower bin where two are equal; none if that magnitude
/// is not above [`MAGNITUDE_THRESHOLD`]. `magnitudes[k]` is the magnitude of
/// bin `k` in millionths.
pub fn largest_bin(
    window: usize,
    relevant_bins: &RangeInclusive<usize>,
    magnitudes: &Vec<u64>,
) -> (bin: Option<usize>)
    requires
        magnitudes.len() == window,
    ensures
        bin == largest_bin_spec(window as nat, relevant_bins@, magnitudes@),
        bin matches Some(k) ==> is_peak(window as nat, relevant_bins@, magnitudes@, k as int)
            && magnitudes[k as int] > MAGNITUDE_THRESHOLD,
        bin is None ==> forall|k: int| #[trigger]
            is_candidate(window as nat, relevant_bins@, k) ==> magnitudes[k]
                <= MAGNITUDE_THRESHOLD,
{
    let half: usize = window / 2;
    let mut best: Option<usize> = None;
    let mut k: usize = 1;
    while k < half
        invariant
            1 <= k,
            k <= half || half == 0,
            half == window / 2,
            magnitudes.len() == window,
            best matches Some(b) ==> b < k && is_candidate(window as nat, relevant_bins@, b as int)
                && forall|other: int| #[trigger]
                is_candidate(window as nat, relevant_bins@, other) && other < k
                    ==> magnitudes[other] <= magnitudes[b as int] && (other < b
                    ==> magnitudes[other] < magnitudes[b as int]),
            best is None ==> forall|other: int| #[trigger]
                is_candidate(window as nat, relevant_bins@, other) ==> other >= k,
        decreases half - k,
    {
        if relevant_bins.contains(&k) {
            match best {
                None => {
                    best = Some(k);
                },
                Some(b) => {
                    if magnitudes[k] > magnitudes[b] {
                        best = Some(k);
                    }
                },
            }
        }
        k = k + 1;
    }
    match best {
        Some(b) => {
            if magnitudes[b] > MAGNITUDE_THRESHOLD {
                assert(is_peak(window as nat, relevant_bins@, magnitudes@, b as int));
                Some(b)
            } else {
                None
            }
        },
        None => None,
    }
}

/// No sample is above 255.
proof fn lemma_sum_bound(samples: Seq<u8>)
    ensures
        sum(samples) <= 255 * samples.len(),
    decreases samples.len(),
{
    if samples.len() > 0 {
        lemma_sum_bound(samples.drop_last());
    }
}

/// No sample is further than the brightest level from a mean that is a grey
/// level itself.
proof fn lemma_spread_bound(samples: Seq<u8>, mean: nat)
    requires
        mean <= MAX_LEVEL,
    ensures
        spread(samples, mean) <= MAX_LEVEL * samples.len(),
    decreases samples.len(),
{
    if samples.len() > 0 {
        lemma_spread_bound(samples.drop_last(), mean);
    }
}

/// Pushing keeps a well-formed state well-formed.
pub proof fn lemma_push_wf(state: OscillatorView, value: u8)
    requires
        state.wf(),
    ensures
        state.push(value).wf(),
{
    let samples = state.samples.push(value);
    let w = state.window as int;
    let g = MICRO as int * value as int;
    if samples.len() == state.window {
        lemma_sum_bound(samples);
        assert(MICRO as int * sum(samples) as int <= MAX_LEVEL as int * w) by (nonlinear_arith)
            requires
                sum(samples) <= 255 * w,
                MICRO == 1_000_000,
                MAX_LEVEL == 255_000_000,
        ;
        lemma_quotient_at_most(MICRO as int * sum(samples) as int, MAX_LEVEL as int, w);
        let mean = ((MICRO as int * sum(samples) as int) / w) as nat;
        lemma_spread_bound(samples, mean);
        lemma_quotient_at_most(spread(samples, mean) as int, MAX_LEVEL as int, w);
    } else if samples.len() > state.window {
        assert(g + state.mean * (w - 1) <= MAX_LEVEL as int * w && 0 <= g + state.mean * (w - 1))
            by (nonlinear_arith)
            requires
                0 <= g <= MAX_LEVEL,
                0 <= state.mean <= MAX_LEVEL,
                w > 0,
        ;
        lemma_quotient_at_most(g + state.mean * (w - 1), MAX_LEVEL as int, w);
        let mean = ((g + state.mean * (w - 1)) / w) as nat;
        let d = distance(mean as int, g) as int;
        assert(d + state.deviation * (w - 1) <= MAX_LEVEL as int * w && 0 <= d + state.deviation * (
            w - 1))
            by (nonlinear_arith)
            requires
                0 <= d <= MAX_LEVEL,
                0 <= state.deviation <= MAX_LEVEL,
                w > 0,
        ;
        lemma_quotient_at_most(d + state.deviation * (w - 1), MAX_LEVEL as int, w);
    }
}

/// A bin that an oscillator names is a candidate: it is not the constant part,
/// it lies in the lower half of the spectrum, and it lies in the band asked
/// for.
pub proof fn lemma_named_bin_is_candidate(
    state: OscillatorView,
    band: RangeInclusiveView<usize>,
    magnitudes: Seq<u64>,
)
    requires
        state.window <= usize::MAX,
    ensures
        state.dominant_bin(band, magnitudes) matches Some(bin) ==> is_candidate(
            state.window,
            band,
            bin as int,
        ) && magnitudes[bin as int] > MAGNITUDE_THRESHOLD,
{
}

/// Truncation does not show in what an oscillator names, nor in the samples
/// that its spectrum is taken of.
pub proof fn lemma_truncation_is_unseen(
    state: OscillatorView,
    band: RangeInclusiveView<usize>,
    magnitudes: Seq<u64>,
)
    ensures
        state.truncate().has_signal() == state.has_signal(),
        state.truncate().dominant_bin(band, magnitudes) == state.dominant_bin(band, magnitudes),
        state.warmed() ==> state.truncate().recent() == state.recent(),
{
}

/// One thing that happens to an oscillator.
pub enum Feed {
    /// A sample is pushed.
    Sample(u8),
    /// The buffer is truncated.
    Truncate,
}

/// The state of an oscillator over `window` samples to which the items of
/// `feed` have happened in turn.
pub open spec fn replay(window: nat, feed: Seq<Feed>) -> OscillatorView
    decreases feed.len(),
{
    if feed.len() == 0 {
        OscillatorView::fresh(window)
    } else {
        let before = replay(window, feed.drop_last());
        match feed.last() {
            Feed::Sample(value) => before.push(value),
            Feed::Truncate => before.truncate(),
        }
    }
}

/// Every sample held is `level`, and once a window is full the mean is
/// `level` and the deviation is zero.
pub open spec fn is_steady(state: OscillatorView, level: u8) -> bool {
    &&& forall|i: int| 0 <= i < state.samples.len() ==> state.samples[i] == level
    &&& state.warmed() ==> state.mean == MICRO * level && state.deviation == 0
}

/// Samples that are all `level` add up to so many times `level`, and none of
/// them is off that mean.
proof fn lemma_constant_sum(samples: Seq<u8>, level: u8)
    requires
        forall|i: int| 0 <= i < samples.len() ==> samples[i] == level,
    ensures
        sum(samples) == samples.len() * level,
        spread(samples, (MICRO * level) as nat) == 0,
    decreases samples.len(),
{
    if samples.len() > 0 {
        lemma_constant_sum(samples.drop_last(), level);
        assert(sum(samples) == samples.len() * level) by (nonlinear_arith)
            requires
                sum(samples) == (samples.len() - 1) * level + level,
        ;
    }
}

/// A steady state stays steady when its own level is pushed.
pub proof fn lemma_steady_push(state: OscillatorView, level: u8)
    requires
        state.window > 0,
        is_steady(state, level),
    ensures
        is_steady(state.push(level), level),
{
    let samples = state.samples.push(level);
    let w = state.window as int;
    let g = MICRO as int * level as int;
    if samples.len() == state.window {
        lemma_constant_sum(samples, level);
        assert((MICRO as int * sum(samples) as int) / w == g) by (nonlinear_arith)
            requires
                sum(samples) == w * level,
                g == MICRO as int * level as int,
                w > 0,
        ;
        assert(0int / w == 0) by (nonlinear_arith)
            requires
                w > 0,
        ;
    } else if samples.len() > state.window {
        assert((g + g * (w - 1)) / w == g) by (nonlinear_arith)
            requires
                w > 0,
        ;
        assert((0 + 0 * (w - 1)) / w == 0) by (nonlinear_arith)
            requires
                w > 0,
        ;
    }
}

/// The sense of the no-signal guard: an oscillator that was fed one and the
/// same level, with truncations at any points in between, names no bin,
/// whatever spectrum and band it is asked about.
pub proof fn lemma_constant_stream_is_silent(
    window: nat,
    feed: Seq<Feed>,
    level: u8,
    band: RangeInclusiveView<usize>,
    magnitudes: Seq<u64>,
)
    requires
        window > 0,
        forall|i: int|
            0 <= i < feed.len() ==> (#[trigger] feed[i] matches Feed::Sample(value) ==> value
                == level),
    ensures
        is_steady(replay(window, feed), level),
        replay(window, feed).window == window,
        replay(window, feed).dominant_bin(band, magnitudes) is None,
    decreases feed.len(),
{
    if feed.len() > 0 {
        let earlier = feed.drop_last();
        assert forall|i: int| 0 <= i < earlier.len() implies (
        #[trigger] earlier[i] matches Feed::Sample(value) ==> value == level) by {
            assert(earlier[i] == feed[i]);
        }
        lemma_constant_stream_is_silent(window, earlier, level, band, magnitudes);
        let before = replay(window, earlier);
        match feed.last() {
            Feed::Sample(value) => {
                assert(feed[feed.len() - 1] == feed.last());
                lemma_steady_push(before, level);
            },
            Feed::Truncate => {},
        }
    }
}

/// A per-patch estimator: the samples of one patch, oldest first, and their
/// running mean and deviation.
pub struct Oscillator {
    window: usize,
    state: Vec<u8>,
    mean: u64,
    deviation: u64,
}

impl View for Oscillator {
    type V = OscillatorView;

    closed spec fn view(&self) -> OscillatorView {
        OscillatorView {
            window: self.window as nat,
            samples: self.state@,
            mean: self.mean as nat,
            deviation: self.deviation as nat,
        }
    }
}

impl Oscillator {
    /// The invariant of the type: see [`OscillatorView::wf`].
    pub open spec fn wf(&self) -> bool {
        self@.wf()
    }

    /// An oscillator over `window` samples that has seen nothing yet.
    pub fn new(window: usize) -> (oscillator: Oscillator)
        requires
            window > 0,
        ensures
            oscillator.wf(),
            oscillator@ == OscillatorView::fresh(window as nat),
    {
        Oscillator { window, state: Vec::new(), mean: 0, deviation: 0 }
    }

    /// The number of samples that one spectrum is taken over.
    pub fn window(&self) -> (window: usize)
        ensures
            window == self@.window,
    {
        self.window
    }

    /// The number of samples held.
    pub fn len(&self) -> (len: usize)
        ensures
            len == self@.samples.len(),
    {
        self.state.len()
    }

    /// The samples held, oldest first.
    pub fn samples(&self) -> (samples: &Vec<u8>)
        ensures
            samples@ == self@.samples,
    {
        &self.state
    }

    /// The running mean, in millionths of a grey level.
    pub fn mean(&self) -> (mean: u64)
        ensures
            mean == self@.mean,
    {
        self.mean
    }

    /// The running deviation, in millionths of a grey level.
    pub fn deviation(&self) -> (deviation: u64)
        ensures
            deviation == self@.deviation,
    {
        self.deviation
    }

    /// Appends one sample and updates the running statistics.
    pub fn push_pixel_value(&mut self, value: u8)
        requires
            old(self).wf(),
        ensures
            final(self).wf(),
            final(self)@ == old(self)@.push(value),
            final(self)@.samples.len() == old(self)@.samples.len() + 1,
    {
        proof {
            lemma_push_wf(self@, value);
        }
        self.state.push(value);
        let len: usize = self.state.len();
        let w: u128 = self.window as u128;
        let g: u128 = MICRO as u128 * value as u128;
        if len == self.window {
            let total: u128 = self.total();
            let mean: u64 = (MICRO as u128 * total / w) as u64;
            let scatter: u128 = self.scatter(mean);
            self.mean = mean;
            self.deviation = (scatter / w) as u64;
        } else if len > self.window {
            assert(self.mean as int * (w - 1) <= MAX_LEVEL as int * (w - 1)) by (nonlinear_arith)
                requires
                    self.mean <= MAX_LEVEL,
                    w >= 1,
            ;
            assert(self.deviation as int * (w - 1) <= MAX_LEVEL as int * (w - 1))
                by (nonlinear_arith)
                requires
                    self.deviation <= MAX_LEVEL,
                    w >= 1,
            ;
            assert(MAX_LEVEL as int * (w - 1) <= 255_000_000 * 0xffff_ffff_ffff_ffff)
                by (nonlinear_arith)
                requires
                    MAX_LEVEL == 255_000_000,
                    1 <= w <= 0xffff_ffff_ffff_ffff,
            ;
            let mean: u64 = ((g + self.mean as u128 * (w - 1)) / w) as u64;
            let gap: u128 = if mean as u128 >= g {
                mean as u128 - g
            } else {
                g - mean as u128
            };
            self.deviation = ((gap + self.deviation as u128 * (w - 1)) / w) as u64;
            self.mean = mean;
        }
    }

    /// Sum of the samples held.
    fn total(&self) -> (total: u128)
        ensures
            total == sum(self@.samples),
            total <= 255 * self@.samples.len(),
    {
        let mut total: u128 = 0;
        let mut i: usize = 0;
        while i < self.state.len()
            invariant
                i <= self.state.len(),
                total == sum(self.state@.take(i as int)),
                total <= 255 * i,
            decreases self.state.len() - i,
        {
            assert(self.state@.take(i + 1).drop_last() == self.state@.take(i as int));
            total = total + self.state[i] as u128;
            i = i + 1;
        }
        assert(self.state@.take(i as int) == self.state@);
        total
    }

    /// Sum of the distances of the samples held from `mean`.
    fn scatter(&self, mean: u64) -> (scatter: u128)
        requires
            mean <= MAX_LEVEL,
        ensures
            scatter == spread(self@.samples, mean as nat),
            scatter <= MAX_LEVEL * self@.samples.len(),
    {
        let mut scatter: u128 = 0;
        let mut i: usize = 0;
        while i < self.state.len()
            invariant
                i <= self.state.len(),
                mean <= MAX_LEVEL,
                scatter == spread(self.state@.take(i as int), mean as nat),
                scatter <= MAX_LEVEL * i,
            decreases self.state.len() - i,
        {
            assert(self.state@.take(i + 1).drop_last() == self.state@.take(i as int));
            let level: u64 = MICRO * self.state[i] as u64;
            let gap: u64 = if level >= mean {
                level - mean
            } else {
                mean - level
            };
            scatter = scatter + gap as u128;
            i = i + 1;
        }
        assert(self.state@.take(i as int) == self.state@);
        scatter
    }

    /// Drops all but the last `window` samples. The statistics stay.
    pub fn truncate_state(&mut self)
        requires
            old(self).wf(),
        ensures
            final(self).wf(),
            final(self)@ == old(self)@.truncate(),
            final(self)@.samples.len() <= final(self)@.window,
            final(self)@.samples.len() <= old(self)@.samples.len(),
    {
        let len: usize = self.state.len();
        if len > self.window {
            let kept = self.state.split_off(len - self.window);
            self.state = kept;
        }
    }

    /// The samples that a spectrum is to be taken of: the last `window`
    /// samples, oldest first, if there is a signal, and nothing otherwise.
    pub fn window_samples(&self) -> (samples: Option<Vec<u8>>)
        requires
            self.wf(),
        ensures
            samples is Some <==> self@.has_signal(),
            samples matches Some(s) ==> s@ == self@.recent(),
    {
        let len: usize = self.state.len();
        if len < self.window || self.deviation < MIN_DEVIATION {
            return None;
        }
        let start: usize = len - self.window;
        let mut samples: Vec<u8> = Vec::new();
        let mut i: usize = start;
        while i < len
            invariant
                start <= i <= len,
                len == self.state.len(),
                samples@ == self.state@.subrange(start as int, i as int),
            decreases len - i,
        {
            samples.push(self.state[i]);
            i = i + 1;
        }
        Some(samples)
    }

    /// The dominant bin inside `relevant_bins`, or none while fewer than
    /// `window` samples have been seen, while the running deviation is below
    /// [`MIN_DEVIATION`], or when no bin stands out.
    ///
    /// `magnitudes[k]` is the magnitude of bin `k`, in millionths, of the
    /// spectrum of the samples that [`Self::window_samples`] hands out; it is
    /// not looked at while that function hands out nothing.
    pub fn frequency_bin(
        &self,
        relevant_bins: &RangeInclusive<usize>,
        magnitudes: &Vec<u64>,
    ) -> (bin: Option<usize>)
        requires
            self.wf(),
            magnitudes.len() == self@.window,
        ensures
            bin == self@.dominant_bin(relevant_bins@, magnitudes@),
            bin matches Some(k) ==> 1 <= k < self@.window / 2 && in_band(
                relevant_bins@,
                k as int,
            ),
    {
        if self.state.len() < self.window || self.deviation < MIN_DEVIATION {
            return None;
        }
        largest_bin(self.window, relevant_bins, magnitudes)
    }
}

} // verus!
