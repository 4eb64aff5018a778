//! The latest report of each window size, and the consensus among them.

use vstd::prelude::*;
use crate::config::MICRO;
use crate::frequency::Report;
use crate::oscillator::distance;

verus! {

/// The windows of the reports grow strictly from each report to the next.
pub open spec fn is_ascending(reports: Seq<Report>) -> bool {
    forall|i: int, j: int| 0 <= i < j < reports.len() ==> reports[i].window < reports[j].window
}

/// The reports of windows smaller than `window`, in their order.
pub open spec fn narrower(reports: Seq<Report>, window: usize) -> Seq<Report> {
    reports.filter(|r: Report| r.window < window)
}

/// The reports of windows larger than `window`, in their order.
pub open spec fn wider(reports: Seq<Report>, window: usize) -> Seq<Report> {
    reports.filter(|r: Report| r.window > window)
}

/// The reports after `report` has come in: it stands in the place of its
/// window size, behind the reports of smaller windows and in front of those of
/// larger ones, and an earlier report of the same window is gone.
pub open spec fn upsert(reports: Seq<Report>, report: Report) -> Seq<Report> {
    narrower(reports, report.window).push(report) + wider(reports, report.window)
}

/// In ascending reports, those of smaller windows are the first `split`, where
/// `split` is the place of the first window that is not smaller.
proof fn lemma_narrower_is_prefix(reports: Seq<Report>, window: usize, split: int)
    requires
        0 <= split <= reports.len(),
        forall|i: int| 0 <= i < split ==> reports[i].window < window,
        forall|i: int| split <= i < reports.len() ==> reports[i].window >= window,
    ensures
        narrower(reports, window) == reports.take(split),
    decreases reports.len(),
{
    reveal(Seq::filter);
    if reports.len() > 0 {
        let front = reports.drop_last();
        if split == reports.len() {
            lemma_narrower_is_prefix(front, window, split - 1);
            assert(front.take(split - 1) == front);
            assert(front.push(reports.last()) == reports.take(split));
        } else {
            lemma_narrower_is_prefix(front, window, split);
            assert(front.take(split) == reports.take(split));
        }
    } else {
        assert(reports.take(split) == reports);
    }
}

/// In ascending reports, those of larger windows are all but the first
/// `split`, where `split` is the place of the first window that is larger.
proof fn lemma_wider_is_suffix(reports: Seq<Report>, window: usize, split: int)
    requires
        0 <= split <= reports.len(),
        forall|i: int| 0 <= i < split ==> reports[i].window <= window,
        forall|i: int| split <= i < reports.len() ==> reports[i].window > window,
    ensures
        wider(reports, window) == reports.skip(split),
    decreases reports.len(),
{
    reveal(Seq::filter);
    if reports.len() > 0 {
        let front = reports.drop_last();
        if split == reports.len() {
            lemma_wider_is_suffix(front, window, split - 1);
            assert(front.skip(split - 1) == reports.skip(split));
        } else {
            lemma_wider_is_suffix(front, window, split);
            assert(front.skip(split).push(reports.last()) == reports.skip(split));
        }
    } else {
        assert(reports.skip(split) == reports);
    }
}

/// The finer report agrees with the rougher one: their frequencies differ by
/// less than one bin of the rougher report's window, which is `frame_rate /
/// rough.window` hertz wide.
pub open spec fn coherent(frame_rate: nat, rough: Report, fine: Report) -> bool {
    distance(fine.frequency as int, rough.frequency as int) * rough.window < frame_rate * MICRO
}

/// `end` is where the chain of agreeing reports that starts with the first
/// report ends: each report up to `end` agrees with the one before it, and the
/// one after `end`, if there is one, does not agree with it.
pub open spec fn is_chain_end(frame_rate: nat, reports: Seq<Report>, end: int) -> bool {
    &&& 0 <= end < reports.len()
    &&& forall|i: int| 0 <= i < end ==> coherent(frame_rate, #[trigger] reports[i], reports[i + 1])
    &&& end + 1 < reports.len() ==> !coherent(frame_rate, reports[end], reports[end + 1])
}

/// The frequency that reports in ascending order of window agree on: that of
/// the finest report still coherent with all rougher ones; none without
/// reports.
pub open spec fn consensus(frame_rate: nat, reports: Seq<Report>) -> Option<u64> {
    if reports.len() == 0 {
        None
    } else {
        Some(reports[choose|end: int| is_chain_end(frame_rate, reports, end)].frequency)
    }
}

/// Keeps the latest report of every window size.
pub struct FrequencyTracker {
    frame_rate: usize,
    reports: Vec<Report>,
}

impl View for FrequencyTracker {
    type V = Seq<Report>;

    /// The reports held, in ascending order of window.
    closed spec fn view(&self) -> Seq<Report> {
        self.reports@
    }
}

impl FrequencyTracker {
    /// Frames per second of the video that the reports are about.
    pub closed spec fn rate(&self) -> nat {
        self.frame_rate as nat
    }

    /// The invariant of the type: one report per window, in ascending order.
    pub open spec fn wf(&self) -> bool {
        is_ascending(self@)
    }

    /// A tracker without reports.
    pub fn new(frame_rate: usize) -> (tracker: FrequencyTracker)
        ensures
            tracker.wf(),
            tracker.rate() == frame_rate,
            tracker@ == Seq::<Report>::empty(),
    {
        FrequencyTracker { frame_rate, reports: Vec::new() }
    }

    /// Frames per second of the video that the reports are about.
    pub fn frame_rate(&self) -> (frame_rate: usize)
        ensures
            frame_rate == self.rate(),
    {
        self.frame_rate
    }

    /// The reports held, in ascending order of window.
    pub fn reports(&self) -> (reports: &Vec<Report>)
        ensures
            reports@ == self@,
    {
        &self.reports
    }

    /// Takes in a report: it replaces the report of the same window, if
    /// there is one, and all other reports stay.
    pub fn update(&mut self, report: Report)
        requires
            old(self).wf(),
        ensures
            final(self).wf(),
            final(self).rate() == old(self).rate(),
            final(self)@ == upsert(old(self)@, report),
    {
        let len: usize = self.reports.len();
        let mut place: usize = 0;
        while place < len && self.reports[place].window < report.window
            invariant
                place <= len,
                len == self.reports.len(),
                forall|i: int| 0 <= i < place ==> self.reports[i].window < report.window,
            decreases len - place,
        {
            place = place + 1;
        }
        let ghost before = self.reports@;
        proof {
            lemma_narrower_is_prefix(before, report.window, place as int);
        }
        if place < len && self.reports[place].window == report.window {
            proof {
                lemma_wider_is_suffix(before, report.window, place + 1);
            }
            self.reports[place] = report;
            assert(self.reports@ == before.take(place as int).push(report) + before.skip(
                place + 1,
            ));
        } else {
            proof {
                lemma_wider_is_suffix(before, report.window, place as int);
            }
            self.reports.insert(place, report);
            assert(self.reports@ == before.take(place as int).push(report) + before.skip(
                place as int,
            ));
        }
    }

    /// Takes in the newest of the reports that one analyzer has sent since
    /// the last look, the last of `drained`; the older ones are dropped.
    pub fn update_with_newest(&mut self, drained: &Vec<Report>)
        requires
            old(self).wf(),
        ensures
            final(self).wf(),
            final(self).rate() == old(self).rate(),
            final(self)@ == if drained@.len() == 0 {
                old(self)@
            } else {
                upsert(old(self)@, drained@.last())
            },
    {
        if drained.len() > 0 {
            self.update(drained[drained.len() - 1]);
        }
    }

    /// The consensus of the reports held: see [`consensus`].
    pub fn calculate_latest(&self) -> (latest: Option<u64>)
        requires
            self.wf(),
        ensures
            latest == consensus(self.rate(), self@),
            self@.len() == 0 <==> latest is None,
    {
        let len: usize = self.reports.len();
        if len == 0 {
            return None;
        }
        let mut chosen: usize = 0;
        while chosen + 1 < len && agree(
            self.frame_rate,
            &self.reports[chosen],
            &self.reports[chosen + 1],
        )
            invariant
                chosen < len,
                len == self.reports.len(),
                forall|i: int|
                    0 <= i < chosen ==> coherent(
                        self.frame_rate as nat,
                        #[trigger] self.reports[i],
                        self.reports[i + 1],
                    ),
            decreases len - chosen,
        {
            chosen = chosen + 1;
        }
        proof {
            lemma_chain_end_is_unique(self.frame_rate as nat, self.reports@, chosen as int);
        }
        Some(self.reports[chosen].frequency)
    }
}

/// Tells whether [`coherent`] holds.
fn agree(frame_rate: usize, rough: &Report, fine: &Report) -> (yes: bool)
    ensures
        yes == coherent(frame_rate as nat, *rough, *fine),
{
    let gap: u64 = if fine.frequency >= rough.frequency {
        fine.frequency - rough.frequency
    } else {
        rough.frequency - fine.frequency
    };
    assert(gap as int * rough.window as int <= 0xffff_ffff_ffff_ffff * 0xffff_ffff_ffff_ffff)
        by (nonlinear_arith)
        requires
            0 <= gap <= 0xffff_ffff_ffff_ffff,
            0 <= rough.window <= 0xffff_ffff_ffff_ffff,
    ;
    assert(frame_rate as int * MICRO as int <= 0xffff_ffff_ffff_ffff * 1_000_000)
        by (nonlinear_arith)
        requires
            0 <= frame_rate <= 0xffff_ffff_ffff_ffff,
            MICRO == 1_000_000,
    ;
    gap as u128 * (rough.window as u128) < frame_rate as u128 * (MICRO as u128)
}

/// A chain of agreeing reports ends in one place only.
proof fn lemma_chain_end_is_unique(frame_rate: nat, reports: Seq<Report>, end: int)
    requires
        is_chain_end(frame_rate, reports, end),
    ensures
        forall|other: int| is_chain_end(frame_rate, reports, other) ==> other == end,
        consensus(frame_rate, reports) == Some(reports[end].frequency),
{
    assert forall|other: int| is_chain_end(frame_rate, reports, other) implies other == end by {
        if other < end {
            assert(coherent(frame_rate, reports[other], reports[other + 1]));
        } else if end < other {
            assert(coherent(frame_rate, reports[end], reports[end + 1]));
        }
    }
}

/// With the reports of two windows, the consensus is the second report's
/// frequency where it differs from the first by less than one bin of the
/// first report's window, and the first report's frequency otherwise.
pub proof fn lemma_consensus_of_two(frame_rate: nat, small: Report, mid: Report)
    ensures
        coherent(frame_rate, small, mid) ==> consensus(frame_rate, seq![small, mid]) == Some(
            mid.frequency,
        ),
        !coherent(frame_rate, small, mid) ==> consensus(frame_rate, seq![small, mid]) == Some(
            small.frequency,
        ),
{
    let reports = seq![small, mid];
    if coherent(frame_rate, small, mid) {
        assert(is_chain_end(frame_rate, reports, 1));
        lemma_chain_end_is_unique(frame_rate, reports, 1);
    } else {
        assert(is_chain_end(frame_rate, reports, 0));
        lemma_chain_end_is_unique(frame_rate, reports, 0);
    }
}

/// A single report is the consensus.
pub proof fn lemma_consensus_of_one(frame_rate: nat, only: Report)
    ensures
        consensus(frame_rate, seq![only]) == Some(only.frequency),
{
    let reports = seq![only];
    assert(is_chain_end(frame_rate, reports, 0));
    lemma_chain_end_is_unique(frame_rate, reports, 0);
}

} // verus!
