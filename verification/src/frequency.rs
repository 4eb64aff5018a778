//! The analyzer of one window size: a population of oscillators scattered
//! over the frame, their vote on the dominant bin, and the reports it emits.

use vstd::prelude::*;
use vstd::std_specs::range::RangeInclusiveView;
use core::ops::RangeInclusive;
use rand::rngs::ThreadRng;
use crate::arith::lemma_quotient_at_most;
use crate::config::{
    HIGHEST_FREQUENCY_OF_INTEREST,
    LARGEST_SETTING,
    LOWEST_FREQUENCY_OF_INTEREST,
    MICRO,
    PIXELS_PER_OSCILLATOR,
    REPORT_FREQUENCY_AFTER_MS,
    TRUNCATE_STATE_AFTER_MS,
    VIEW_SIZE,
};
use crate::frame::{Frame, FrameView, GeometryMismatch};
use crate::oscillator::{lemma_named_bin_is_candidate, Oscillator, OscillatorView};
use crate::random::below;
use crate::vote::{
    bin_frequency,
    estimate,
    estimate_of,
    lemma_silent_votes,
    lemma_unanimous_votes,
};

verus! {

/// What an analyzer tells about the frequency it sees.
#[derive(Clone, Copy, Debug, PartialEq, Eq, Structural)]
pub struct Report {
    /// The window size of the analyzer that made the report.
    pub window: usize,
    /// The number of frames that the analyzer had seen before the frame on
    /// which it reports.
    pub frame_index: usize,
    /// The estimate, in millionths of a hertz.
    pub frequency: u64,
}

/// The settings of one analyzer.
#[derive(Clone, Copy, Debug, PartialEq, Eq, Structural)]
pub struct AnalyzerBuilder {
    /// Frames per second of the video.
    pub frame_rate: usize,
    /// How many past samples one spectrum is taken over.
    pub window: usize,
    pub frame_width: u32,
    pub frame_height: u32,
}

/// Why settings are refused.
#[derive(Clone, Copy, Debug, PartialEq, Eq, Structural)]
pub enum AnalyzerError {
    /// The frame rate is zero.
    ZeroFrameRate,
    /// The window is zero.
    ZeroWindow,
    /// The frame rate or the window is above [`LARGEST_SETTING`].
    SettingsTooLarge,
    /// Oscillators are to be placed, and no patch fits into the frame with a
    /// column and a row to spare.
    FrameTooSmall,
}

/// What an analyzer tells of a frame that it has taken in.
#[derive(Clone, Copy, Debug, PartialEq, Eq, Structural)]
pub struct Cadence {
    /// The number of frames seen before this one.
    pub frame_index: usize,
    /// A report is due on this frame.
    pub report_due: bool,
}

/// The bin that a frequency, in millionths of a hertz, falls into: `frequency
/// * window / frame_rate`, rounded down.
pub open spec fn bin_of(frame_rate: int, window: int, frequency: int) -> int {
    (frequency * window) / (MICRO as int * frame_rate)
}

/// The bins that cover the frequencies of interest.
pub open spec fn relevant_band(frame_rate: nat, window: nat) -> RangeInclusiveView<usize> {
    RangeInclusiveView {
        start: bin_of(
            frame_rate as int,
            window as int,
            LOWEST_FREQUENCY_OF_INTEREST as int,
        ) as usize,
        end: bin_of(
            frame_rate as int,
            window as int,
            HIGHEST_FREQUENCY_OF_INTEREST as int,
        ) as usize,
        exhausted: false,
    }
}

/// A report is made on every so many frames: the frames of
/// [`REPORT_FREQUENCY_AFTER_MS`] milliseconds, and one at least.
pub open spec fn report_interval(frame_rate: nat) -> int {
    let frames = (REPORT_FREQUENCY_AFTER_MS * frame_rate) / 1000;
    if frames == 0 {
        1
    } else {
        frames
    }
}

/// The oscillators are truncated on every so many frames: the frames of
/// [`TRUNCATE_STATE_AFTER_MS`] milliseconds.
pub open spec fn truncate_interval(frame_rate: nat) -> int {
    (TRUNCATE_STATE_AFTER_MS * frame_rate) / 1000
}

/// The number of oscillators that are placed on a frame of the given
/// geometry.
pub open spec fn oscillators_for(width: nat, height: nat) -> nat {
    (width * height) / (PIXELS_PER_OSCILLATOR as nat)
}

/// What an oscillator samples from a frame: the sum of the four pixels of the
/// patch at `(x, y)`, halved, and of that the lowest eight bits.
pub open spec fn patch_value(frame: FrameView, x: int, y: int) -> u8 {
    (((frame.pixel(x, y) + frame.pixel(x, y + 1) + frame.pixel(x + 1, y) + frame.pixel(
        x + 1,
        y + 1,
    )) / (VIEW_SIZE as int)) % 256) as u8
}

/// Why the settings are refused, if they are.
pub open spec fn refusal(builder: AnalyzerBuilder) -> Option<AnalyzerError> {
    if builder.frame_rate == 0 {
        Some(AnalyzerError::ZeroFrameRate)
    } else if builder.window == 0 {
        Some(AnalyzerError::ZeroWindow)
    } else if builder.frame_rate > LARGEST_SETTING || builder.window > LARGEST_SETTING {
        Some(AnalyzerError::SettingsTooLarge)
    } else {
        None
    }
}

/// An oscillator and the place of its patch, mathematically.
#[verifier::ext_equal]
pub struct PatchView {
    pub x: nat,
    pub y: nat,
    pub oscillator: OscillatorView,
}

/// What an analyzer is, mathematically.
#[verifier::ext_equal]
pub struct AnalyzerView {
    pub frame_rate: nat,
    pub window: nat,
    pub width: nat,
    pub height: nat,
    /// The oscillators, in the order in which their places were first taken.
    pub patches: Seq<PatchView>,
    /// The number of frames taken in.
    pub frames_seen: nat,
    /// Every report made so far is on a frame before this one.
    pub report_floor: nat,
}

impl AnalyzerView {
    /// The number of frames taken in since the oscillators were last
    /// truncated.
    pub open spec fn since_truncation(self) -> int {
        if self.frames_seen == 0 {
            0
        } else {
            (self.frames_seen - 1) % truncate_interval(self.frame_rate)
        }
    }

    /// The settings are in range, every patch lies inside the frame and has an
    /// oscillator of this analyzer's window, no two patches share a place, and
    /// no report is on a frame not yet seen.
    pub open spec fn sound(self) -> bool {
        &&& 1 <= self.frame_rate <= LARGEST_SETTING
        &&& 1 <= self.window <= LARGEST_SETTING
        &&& self.report_floor <= self.frames_seen
        &&& forall|i: int|
            0 <= i < self.patches.len() ==> {
                &&& (#[trigger] self.patches[i]).x + VIEW_SIZE <= self.width
                &&& self.patches[i].y + VIEW_SIZE <= self.height
                &&& self.patches[i].oscillator.wf()
                &&& self.patches[i].oscillator.window == self.window
            }
        &&& forall|i: int, j: int|
            0 <= i < j < self.patches.len() ==> !((#[trigger] self.patches[i]).x == (
            #[trigger] self.patches[j]).x && self.patches[i].y == self.patches[j].y)
    }

    /// No oscillator holds more than a window of samples and those taken in
    /// since the last truncation.
    pub open spec fn bounded(self) -> bool {
        forall|i: int|
            0 <= i < self.patches.len() ==> (#[trigger] self.patches[i]).oscillator.samples.len()
                <= self.window + self.since_truncation()
    }

    /// The invariant of an analyzer: it is sound and bounded.
    pub open spec fn wf(self) -> bool {
        self.sound() && self.bounded()
    }

    /// The bins that cover the frequencies of interest.
    pub open spec fn band(self) -> RangeInclusiveView<usize> {
        relevant_band(self.frame_rate, self.window)
    }

    /// The index of the oscillator at `(x, y)`, if there is one.
    pub open spec fn place_of(self, x: nat, y: nat) -> Option<int> {
        if exists|i: int|
            0 <= i < self.patches.len() && (#[trigger] self.patches[i]).x == x
                && self.patches[i].y == y {
            Some(
                choose|i: int|
                    0 <= i < self.patches.len() && (#[trigger] self.patches[i]).x == x
                        && self.patches[i].y == y,
            )
        } else {
            None
        }
    }

    /// The analyzer with a fresh oscillator at `(x, y)`: in the place of the
    /// one that was there, or behind all others.
    pub open spec fn track(self, x: nat, y: nat) -> AnalyzerView {
        let patch = PatchView { x, y, oscillator: OscillatorView::fresh(self.window) };
        AnalyzerView {
            patches: match self.place_of(x, y) {
                Some(i) => self.patches.update(i, patch),
                None => self.patches.push(patch),
            },
            ..self
        }
    }

    /// The analyzer after a frame: each oscillator has the value of its patch
    /// as one more sample.
    pub open spec fn ingest(self, frame: FrameView) -> AnalyzerView {
        AnalyzerView {
            patches: Seq::new(
                self.patches.len(),
                |i: int|
                    PatchView {
                        oscillator: self.patches[i].oscillator.push(
                            patch_value(frame, self.patches[i].x as int, self.patches[i].y as int),
                        ),
                        ..self.patches[i]
                    },
            ),
            frames_seen: self.frames_seen + 1,
            ..self
        }
    }

    /// The analyzer with every oscillator truncated.
    pub open spec fn truncate(self) -> AnalyzerView {
        AnalyzerView {
            patches: Seq::new(
                self.patches.len(),
                |i: int|
                    PatchView {
                        oscillator: self.patches[i].oscillator.truncate(),
                        ..self.patches[i]
                    },
            ),
            ..self
        }
    }

    /// The analyzer after it has taken in a frame: each oscillator has one
    /// more sample, and on the frames on which truncation is due it keeps no
    /// more than its last window of samples.
    pub open spec fn take_in(self, frame: FrameView) -> AnalyzerView {
        if self.frames_seen as int % truncate_interval(self.frame_rate) == 0 {
            self.ingest(frame).truncate()
        } else {
            self.ingest(frame)
        }
    }

    /// The bin that each oscillator names, where `spectra[i]` holds the
    /// magnitudes of the spectrum of oscillator `i`.
    pub open spec fn votes(self, spectra: Seq<Seq<u64>>) -> Seq<Option<usize>> {
        Seq::new(
            self.patches.len(),
            |i: int| self.patches[i].oscillator.dominant_bin(self.band(), spectra[i]),
        )
    }

    /// The frequency that the oscillators agree on, if they do.
    pub open spec fn estimate(self, spectra: Seq<Seq<u64>>) -> Option<u64> {
        estimate_of(self.frame_rate, self.window, self.votes(spectra))
    }

    /// A report is due: a frame has been taken in on which the analyzer is to
    /// report and has not yet been asked to.
    pub open spec fn report_due(self) -> bool {
        self.report_floor < self.frames_seen && (self.frames_seen - 1) % report_interval(
            self.frame_rate,
        ) == 0
    }

    /// What the analyzer answers when it is asked for a report: if one is due
    /// and the oscillators agree on a frequency, a report of that frequency on
    /// the last frame taken in.
    pub open spec fn answer(self, spectra: Seq<Seq<u64>>) -> Option<Report> {
        if self.report_due() {
            match self.estimate(spectra) {
                Some(frequency) => Some(
                    Report {
                        window: self.window as usize,
                        frame_index: (self.frames_seen - 1) as usize,
                        frequency,
                    },
                ),
                None => None,
            }
        } else {
            None
        }
    }

    /// The analyzer after it was asked for a report: where one was due, it is
    /// not asked about the frames taken in so far again.
    pub open spec fn asked(self) -> AnalyzerView {
        if self.report_due() {
            AnalyzerView { report_floor: self.frames_seen, ..self }
        } else {
            self
        }
    }
}

/// Where every oscillator names the same bin, the analyzer finds the
/// frequency of that bin.
pub proof fn lemma_unanimous_oscillators(state: AnalyzerView, spectra: Seq<Seq<u64>>, bin: usize)
    requires
        state.wf(),
        state.patches.len() > 0,
        forall|i: int|
            0 <= i < state.patches.len() ==> (#[trigger] state.patches[i]).oscillator.dominant_bin(
                state.band(),
                spectra[i],
            ) == Some(bin),
    ensures
        state.estimate(spectra) == Some(
            bin_frequency(state.frame_rate as int, state.window as int, bin as int) as u64,
        ),
{
    let votes = state.votes(spectra);
    assert(votes[0] == state.patches[0].oscillator.dominant_bin(state.band(), spectra[0]));
    lemma_named_bin_is_candidate(state.patches[0].oscillator, state.band(), spectra[0]);
    assert forall|i: int| 0 <= i < votes.len() implies votes[i] == Some(bin) by {
        assert(votes[i] == state.patches[i].oscillator.dominant_bin(state.band(), spectra[i]));
    }
    lemma_unanimous_votes(state.frame_rate, state.window, votes, bin);
}

/// Where no oscillator names a bin, the analyzer finds no frequency and
/// makes no report.
pub proof fn lemma_silent_oscillators(state: AnalyzerView, spectra: Seq<Seq<u64>>)
    requires
        forall|i: int|
            0 <= i < state.patches.len() ==> (#[trigger] state.patches[i]).oscillator.dominant_bin(
                state.band(),
                spectra[i],
            ) is None,
    ensures
        state.estimate(spectra) is None,
        state.answer(spectra) is None,
{
    let votes = state.votes(spectra);
    assert forall|i: int| 0 <= i < votes.len() implies votes[i] is None by {
        assert(votes[i] == state.patches[i].oscillator.dominant_bin(state.band(), spectra[i]));
    }
    lemma_silent_votes(state.frame_rate, state.window, votes);
}

/// Truncation does not show in what an analyzer reports: it may be done
/// before the report on a frame is made as well as after it.
pub proof fn lemma_truncation_is_unseen(state: AnalyzerView, spectra: Seq<Seq<u64>>)
    ensures
        state.truncate().votes(spectra) == state.votes(spectra),
        state.truncate().estimate(spectra) == state.estimate(spectra),
        state.truncate().answer(spectra) == state.answer(spectra),
{
    assert forall|i: int| 0 <= i < state.patches.len() implies state.truncate().votes(spectra)[i]
        == state.votes(spectra)[i] by {
        crate::oscillator::lemma_truncation_is_unseen(
            state.patches[i].oscillator,
            state.band(),
            spectra[i],
        );
    }
    assert(state.truncate().votes(spectra) =~= state.votes(spectra));
}

/// With a window of no fewer samples than the frames between two truncations,
/// no oscillator of an analyzer ever holds more than two windows of samples.
pub proof fn lemma_buffers_are_bounded(state: AnalyzerView)
    requires
        state.wf(),
        truncate_interval(state.frame_rate) <= state.window,
    ensures
        forall|i: int|
            0 <= i < state.patches.len() ==> (#[trigger] state.patches[i]).oscillator.samples.len()
                <= 2 * state.window,
{
    let interval = truncate_interval(state.frame_rate);
    assert(TRUNCATE_STATE_AFTER_MS as int * state.frame_rate as int >= 2000) by (nonlinear_arith)
        requires
            state.frame_rate >= 1,
            TRUNCATE_STATE_AFTER_MS == 2000,
    ;
    assert(interval >= 2);
    assert(state.since_truncation() < interval);
}

/// One thing that happens to an analyzer.
pub enum Event {
    /// A frame is taken in.
    Frame(FrameView),
    /// It is asked for a report, with the spectra of its oscillators.
    Ask(Seq<Seq<u64>>),
    /// Its oscillators are truncated.
    Truncate,
}

/// The analyzer after the event.
pub open spec fn after(state: AnalyzerView, event: Event) -> AnalyzerView {
    match event {
        Event::Frame(frame) => state.take_in(frame),
        Event::Ask(_) => state.asked(),
        Event::Truncate => state.truncate(),
    }
}

/// The analyzer after the first `upto` of the events, in turn.
pub open spec fn after_all(start: AnalyzerView, events: Seq<Event>, upto: int) -> AnalyzerView
    decreases upto,
{
    if upto <= 0 {
        start
    } else {
        after(after_all(start, events, upto - 1), events[upto - 1])
    }
}

/// The report that event `at` brings, if it brings one.
pub open spec fn emitted(start: AnalyzerView, events: Seq<Event>, at: int) -> Option<Report> {
    match events[at] {
        Event::Ask(spectra) => after_all(start, events, at).answer(spectra),
        _ => None,
    }
}

/// Neither the floor under the frames of reports nor the number of frames
/// taken in ever sinks.
proof fn lemma_floor_rises(start: AnalyzerView, events: Seq<Event>, from: int, to: int)
    requires
        0 <= from <= to <= events.len(),
    ensures
        after_all(start, events, from).report_floor <= after_all(start, events, to).report_floor,
        after_all(start, events, from).frames_seen <= after_all(start, events, to).frames_seen,
    decreases to - from,
{
    if from < to {
        lemma_floor_rises(start, events, from, to - 1);
    }
}

/// The reports of one analyzer come in strictly ascending order of frame:
/// whatever happens to the analyzer, of two reports that it makes the later
/// one is on a later frame, as long as the machine can count the frames.
pub proof fn lemma_reports_ascend(
    start: AnalyzerView,
    events: Seq<Event>,
    earlier: int,
    later: int,
)
    requires
        0 <= earlier < later < events.len(),
        emitted(start, events, earlier) is Some,
        emitted(start, events, later) is Some,
        after_all(start, events, later).frames_seen <= usize::MAX,
    ensures
        emitted(start, events, earlier)->Some_0.frame_index < emitted(
            start,
            events,
            later,
        )->Some_0.frame_index,
{
    let asked = after_all(start, events, earlier);
    assert(after_all(start, events, earlier + 1) == after(asked, events[earlier]));
    assert(after_all(start, events, earlier + 1).report_floor == asked.frames_seen);
    lemma_floor_rises(start, events, earlier + 1, later);
    lemma_floor_rises(start, events, earlier, later);
}

/// The remainder of a number that is no multiple of the divisor is one more
/// than that of the number before it.
proof fn lemma_next_remainder(n: int, d: int)
    by (nonlinear_arith)
    requires
        n >= 1,
        d > 0,
        n % d != 0,
    ensures
        (n - 1) % d + 1 == n % d,
{
}

/// An oscillator and the place of its patch.
struct Patch {
    x: u32,
    y: u32,
    oscillator: Oscillator,
}

impl View for Patch {
    type V = PatchView;

    closed spec fn view(&self) -> PatchView {
        PatchView { x: self.x as nat, y: self.y as nat, oscillator: self.oscillator@ }
    }
}

/// Drives a population of oscillators with the frames of a video and puts
/// their votes together.
pub struct Analyzer {
    frame_rate: usize,
    window: usize,
    frame_width: u32,
    frame_height: u32,
    patches: Vec<Patch>,
    frames_seen: usize,
    report_floor: usize,
}

impl View for Analyzer {
    type V = AnalyzerView;

    closed spec fn view(&self) -> AnalyzerView {
        AnalyzerView {
            frame_rate: self.frame_rate as nat,
            window: self.window as nat,
            width: self.frame_width as nat,
            height: self.frame_height as nat,
            patches: Seq::new(self.patches@.len(), |i: int| self.patches@[i]@),
            frames_seen: self.frames_seen as nat,
            report_floor: self.report_floor as nat,
        }
    }
}

impl Analyzer {
    /// The invariant of the type: see [`AnalyzerView::wf`].
    pub open spec fn wf(&self) -> bool {
        self@.wf()
    }

    /// An analyzer with the given settings and without oscillators, or the
    /// reason why the settings are refused.
    pub fn new(builder: AnalyzerBuilder) -> (made: Result<Analyzer, AnalyzerError>)
        ensures
            match refusal(builder) {
                Some(error) => made == Err::<Analyzer, AnalyzerError>(error),
                None => made matches Ok(analyzer) && analyzer.wf() && analyzer@ == (AnalyzerView {
                    frame_rate: builder.frame_rate as nat,
                    window: builder.window as nat,
                    width: builder.frame_width as nat,
                    height: builder.frame_height as nat,
                    patches: Seq::empty(),
                    frames_seen: 0,
                    report_floor: 0,
                }),
            },
    {
        if builder.frame_rate == 0 {
            Err(AnalyzerError::ZeroFrameRate)
        } else if builder.window == 0 {
            Err(AnalyzerError::ZeroWindow)
        } else if builder.frame_rate > LARGEST_SETTING || builder.window > LARGEST_SETTING {
            Err(AnalyzerError::SettingsTooLarge)
        } else {
            Ok(
                Analyzer {
                    frame_rate: builder.frame_rate,
                    window: builder.window,
                    frame_width: builder.frame_width,
                    frame_height: builder.frame_height,
                    patches: Vec::new(),
                    frames_seen: 0,
                    report_floor: 0,
                },
            )
        }
    }

    /// Frames per second of the video.
    pub fn frame_rate(&self) -> (frame_rate: usize)
        ensures
            frame_rate == self@.frame_rate,
    {
        self.frame_rate
    }

    /// How many samples one spectrum is taken over.
    pub fn window(&self) -> (window: usize)
        ensures
            window == self@.window,
    {
        self.window
    }

    /// The number of frames taken in.
    pub fn frames_seen(&self) -> (frames: usize)
        ensures
            frames == self@.frames_seen,
    {
        self.frames_seen
    }

    /// The number of oscillators.
    pub fn population(&self) -> (count: usize)
        ensures
            count == self@.patches.len(),
    {
        self.patches.len()
    }

    /// The oscillator of the given index.
    pub fn oscillator(&self, index: usize) -> (oscillator: &Oscillator)
        requires
            index < self@.patches.len(),
        ensures
            oscillator@ == self@.patches[index as int].oscillator,
    {
        &self.patches[index].oscillator
    }

    /// The places of the patches, in the order of the oscillators.
    pub fn places(&self) -> (places: Vec<(u32, u32)>)
        ensures
            places@.len() == self@.patches.len(),
            forall|i: int|
                0 <= i < places@.len() ==> (#[trigger] places@[i]).0 == self@.patches[i].x
                    && places@[i].1 == self@.patches[i].y,
    {
        let mut places: Vec<(u32, u32)> = Vec::new();
        let mut i: usize = 0;
        while i < self.patches.len()
            invariant
                i <= self.patches.len(),
                places@.len() == i,
                forall|j: int|
                    0 <= j < i ==> (#[trigger] places@[j]).0 == self.patches@[j].x && places@[j].1
                        == self.patches@[j].y,
            decreases self.patches.len() - i,
        {
            places.push((self.patches[i].x, self.patches[i].y));
            i = i + 1;
        }
        places
    }

    /// The index of the oscillator at `(x, y)`, if there is one.
    fn find(&self, x: u32, y: u32) -> (place: Option<usize>)
        requires
            self.wf(),
        ensures
            place matches Some(i) ==> i < self.patches@.len(),
            match place {
                Some(i) => self@.place_of(x as nat, y as nat) == Some(i as int),
                None => self@.place_of(x as nat, y as nat) is None,
            },
    {
        let mut i: usize = 0;
        while i < self.patches.len()
            invariant
                i <= self.patches.len(),
                self.wf(),
                forall|j: int|
                    0 <= j < i ==> !((#[trigger] self@.patches[j]).x == x && self@.patches[j].y
                        == y),
            decreases self.patches.len() - i,
        {
            if self.patches[i].x == x && self.patches[i].y == y {
                assert(self@.patches[i as int].x == x && self@.patches[i as int].y == y);
                return Some(i);
            }
            i = i + 1;
        }
        None
    }

    /// Puts a fresh oscillator on the patch at `(x, y)`, in the place of the
    /// one that is there, if any. Tells whether the patch lies inside the frame;
    /// if it does not, nothing changes.
    pub fn track(&mut self, x: u32, y: u32) -> (placed: bool)
        requires
            old(self).wf(),
        ensures
            final(self).wf(),
            placed == (x + VIEW_SIZE <= old(self)@.width && y + VIEW_SIZE <= old(self)@.height),
            placed ==> final(self)@ == old(self)@.track(x as nat, y as nat),
            !placed ==> final(self)@ == old(self)@,
    {
        if x as u64 + VIEW_SIZE as u64 > self.frame_width as u64 || y as u64 + VIEW_SIZE as u64
            > self.frame_height as u64 {
            return false;
        }
        let patch = Patch { x, y, oscillator: Oscillator::new(self.window) };
        let ghost fresh = patch@;
        match self.find(x, y) {
            Some(i) => {
                self.patches[i] = patch;
                assert(self@.patches == old(self)@.patches.update(i as int, fresh));
            },
            None => {
                self.patches.push(patch);
                assert(self@.patches == old(self)@.patches.push(fresh));
            },
        }
        true
    }

    /// Places `count` fresh oscillators at random: each on a patch that leaves
    /// a column and a row of the frame to spare, and a later one in the place
    /// of an earlier one on the same patch.
    fn init_oscillators(&mut self, rng: &mut ThreadRng, count: u64)
        requires
            old(self).wf(),
            old(self)@.patches.len() == 0,
            old(self)@.width > VIEW_SIZE,
            old(self)@.height > VIEW_SIZE,
        ensures
            final(self).wf(),
            final(self)@ == (AnalyzerView { patches: final(self)@.patches, ..old(self)@ }),
            final(self)@.patches.len() <= count,
            count > 0 ==> final(self)@.patches.len() > 0,
            forall|i: int|
                0 <= i < final(self)@.patches.len() ==> {
                    &&& (#[trigger] final(self)@.patches[i]).x + VIEW_SIZE < final(self)@.width
                    &&& final(self)@.patches[i].y + VIEW_SIZE < final(self)@.height
                    &&& final(self)@.patches[i].oscillator == OscillatorView::fresh(
                        final(self)@.window,
                    )
                },
    {
        let mut placed: u64 = 0;
        while placed < count
            invariant
                placed <= count,
                self.wf(),
                self@ == (AnalyzerView { patches: self@.patches, ..old(self)@ }),
                self@.width > VIEW_SIZE,
                self@.height > VIEW_SIZE,
                self@.patches.len() <= placed,
                placed > 0 ==> self@.patches.len() > 0,
                forall|i: int|
                    0 <= i < self@.patches.len() ==> {
                        &&& (#[trigger] self@.patches[i]).x + VIEW_SIZE < self@.width
                        &&& self@.patches[i].y + VIEW_SIZE < self@.height
                        &&& self@.patches[i].oscillator == OscillatorView::fresh(self@.window)
                    },
            decreases count - placed,
        {
            let x: u32 = below(rng, self.frame_width - VIEW_SIZE);
            let y: u32 = below(rng, self.frame_height - VIEW_SIZE);
            self.track(x, y);
            placed = placed + 1;
        }
    }

    /// An analyzer with the given settings and with oscillators on patches
    /// picked at random, one for every [`PIXELS_PER_OSCILLATOR`] pixels of the
    /// frame or fewer where the same patch was picked twice; or the reason why
    /// the settings are refused.
    pub fn with_random_patches(builder: AnalyzerBuilder) -> (made: Result<Analyzer, AnalyzerError>)
        ensures
            match refusal(builder) {
                Some(error) => made == Err::<Analyzer, AnalyzerError>(error),
                None => if oscillators_for(builder.frame_width as nat, builder.frame_height as nat)
                    > 0 && (builder.frame_width <= VIEW_SIZE || builder.frame_height
                    <= VIEW_SIZE) {
                    made == Err::<Analyzer, AnalyzerError>(AnalyzerError::FrameTooSmall)
                } else {
                    &&& made matches Ok(analyzer)
                    &&& analyzer.wf()
                    &&& analyzer@ == (AnalyzerView {
                        frame_rate: builder.frame_rate as nat,
                        window: builder.window as nat,
                        width: builder.frame_width as nat,
                        height: builder.frame_height as nat,
                        patches: analyzer@.patches,
                        frames_seen: 0,
                        report_floor: 0,
                    })
                    &&& analyzer@.patches.len() <= oscillators_for(
                        builder.frame_width as nat,
                        builder.frame_height as nat,
                    )
                    &&& oscillators_for(builder.frame_width as nat, builder.frame_height as nat)
                        > 0 ==> analyzer@.patches.len() > 0
                    &&& forall|i: int|
                        0 <= i < analyzer@.patches.len() ==> {
                            &&& (#[trigger] analyzer@.patches[i]).x + VIEW_SIZE
                                < builder.frame_width
                            &&& analyzer@.patches[i].y + VIEW_SIZE < builder.frame_height
                            &&& analyzer@.patches[i].oscillator == OscillatorView::fresh(
                                builder.window as nat,
                            )
                        }
                },
            },
    {
        let mut analyzer = match Analyzer::new(builder) {
            Ok(analyzer) => analyzer,
            Err(error) => {
                return Err(error);
            },
        };
        assert(builder.frame_width as int * builder.frame_height as int <= 0xffff_ffff
            * 0xffff_ffff) by (nonlinear_arith)
            requires
                0 <= builder.frame_width <= 0xffff_ffff,
                0 <= builder.frame_height <= 0xffff_ffff,
        ;
        let count: u64 = builder.frame_width as u64 * builder.frame_height as u64
            / PIXELS_PER_OSCILLATOR;
        if count > 0 {
            if builder.frame_width <= VIEW_SIZE || builder.frame_height <= VIEW_SIZE {
                return Err(AnalyzerError::FrameTooSmall);
            }
            let mut rng = rand::thread_rng();
            analyzer.init_oscillators(&mut rng, count);
        }
        Ok(analyzer)
    }

    /// The bins that cover the frequencies of interest.
    pub fn relevant_bins(&self) -> (bins: RangeInclusive<usize>)
        requires
            self.wf(),
        ensures
            bins@ == self@.band(),
    {
        RangeInclusive::new(
            self.frequency_to_bin(LOWEST_FREQUENCY_OF_INTEREST),
            self.frequency_to_bin(HIGHEST_FREQUENCY_OF_INTEREST),
        )
    }

    /// The bin that a frequency falls into.
    fn frequency_to_bin(&self, frequency: u64) -> (bin: usize)
        requires
            self.wf(),
            frequency <= HIGHEST_FREQUENCY_OF_INTEREST,
        ensures
            bin == bin_of(self@.frame_rate as int, self@.window as int, frequency as int),
    {
        let ghost f = frequency as int;
        let ghost w = self.window as int;
        let ghost r = self.frame_rate as int;
        proof {
            assert(0 <= f * w <= 4_000_000 * 0x3fff_ffff) by (nonlinear_arith)
                requires
                    0 <= f <= 4_000_000,
                    0 <= w <= 0x3fff_ffff,
            ;
            assert(1_000_000 <= 1_000_000 * r <= 1_000_000 * 0x3fff_ffff) by (nonlinear_arith)
                requires
                    1 <= r <= 0x3fff_ffff,
            ;
            assert(f * w <= (4 * w) * (1_000_000 * r)) by (nonlinear_arith)
                requires
                    0 <= f <= 4_000_000,
                    0 <= w,
                    1 <= r,
            ;
            lemma_quotient_at_most(f * w, 4 * w, 1_000_000 * r);
        }
        let bin: u64 = (frequency * self.window as u64) / (MICRO * self.frame_rate as u64);
        bin as usize
    }

    /// What the oscillator at `(x, y)` samples from the frame.
    fn sample(frame: &Frame, x: u32, y: u32) -> (value: u8)
        requires
            frame.wf(),
            x + VIEW_SIZE <= frame@.width,
            y + VIEW_SIZE <= frame@.height,
        ensures
            value == patch_value(frame@, x as int, y as int),
    {
        let width: u32 = frame.width();
        let height: u32 = frame.height();
        let sum: u32 = frame.pixel(x, y) as u32 + frame.pixel(x, y + 1) as u32 + frame.pixel(
            x + 1,
            y,
        ) as u32 + frame.pixel(x + 1, y + 1) as u32;
        ((sum / VIEW_SIZE) % 256) as u8
    }

    /// Hands each oscillator the value of its patch in the frame.
    fn push_pixel_values_to_oscillators(&mut self, frame: &Frame)
        requires
            old(self)@.sound(),
            frame.wf(),
            frame@.width == old(self)@.width,
            frame@.height == old(self)@.height,
        ensures
            final(self)@.sound(),
            final(self)@ == (AnalyzerView {
                frames_seen: old(self)@.frames_seen,
                ..old(self)@.ingest(frame@)
            }),
    {
        let mut i: usize = 0;
        while i < self.patches.len()
            invariant
                i <= self.patches.len(),
                self.patches.len() == old(self).patches.len(),
                self@.sound(),
                frame.wf(),
                frame@.width == self@.width,
                frame@.height == self@.height,
                self@ == (AnalyzerView { patches: self@.patches, ..old(self)@ }),
                forall|j: int|
                    0 <= j < i ==> #[trigger] self@.patches[j] == old(self)@.ingest(
                        frame@,
                    ).patches[j],
                forall|j: int|
                    i <= j < self.patches.len() ==> #[trigger] self@.patches[j]
                        == old(self)@.patches[j],
            decreases self.patches.len() - i,
        {
            let ghost before = self@;
            assert(before.patches[i as int] == self.patches@[i as int]@);
            let value: u8 = Analyzer::sample(frame, self.patches[i].x, self.patches[i].y);
            self.patches[i].oscillator.push_pixel_value(value);
            assert forall|j: int| 0 <= j < self.patches.len() && j != i implies
                #[trigger] self@.patches[j] == before.patches[j] by {}
            i = i + 1;
        }
    }

    /// Truncates every oscillator.
    fn truncate_oscillators(&mut self)
        requires
            old(self)@.sound(),
        ensures
            final(self)@.sound(),
            final(self)@ == old(self)@.truncate(),
    {
        let mut i: usize = 0;
        while i < self.patches.len()
            invariant
                i <= self.patches.len(),
                self.patches.len() == old(self).patches.len(),
                self@.sound(),
                self@ == (AnalyzerView { patches: self@.patches, ..old(self)@ }),
                forall|j: int|
                    0 <= j < i ==> #[trigger] self@.patches[j] == old(self)@.truncate().patches[j],
                forall|j: int|
                    i <= j < self.patches.len() ==> #[trigger] self@.patches[j]
                        == old(self)@.patches[j],
            decreases self.patches.len() - i,
        {
            let ghost before = self@;
            assert(before.patches[i as int] == self.patches@[i as int]@);
            self.patches[i].oscillator.truncate_state();
            assert forall|j: int| 0 <= j < self.patches.len() && j != i implies
                #[trigger] self@.patches[j] == before.patches[j] by {}
            i = i + 1;
        }
    }

    /// Takes in the next frame of the video: each oscillator gets the value of
    /// its patch as one more sample, and on the frames on which truncation is
    /// due it is cut back to its last window of samples, which changes nothing
    /// in what it names. Tells whether a report is due on this frame. A frame
    /// of another geometry is refused, and nothing changes.
    pub fn push_frame(&mut self, frame: &Frame) -> (taken: Result<Cadence, GeometryMismatch>)
        requires
            old(self).wf(),
            frame.wf(),
            old(self)@.frames_seen < usize::MAX,
        ensures
            final(self).wf(),
            taken is Err <==> frame@.width != old(self)@.width
                || frame@.height != old(self)@.height,
            taken matches Err(e) ==> final(self)@ == old(self)@ && e == (GeometryMismatch {
                expected_width: old(self)@.width as u32,
                expected_height: old(self)@.height as u32,
                found_width: frame@.width as u32,
                found_height: frame@.height as u32,
            }),
            taken matches Ok(cadence) ==> final(self)@ == old(self)@.take_in(frame@) && cadence
                == (Cadence {
                frame_index: old(self)@.frames_seen as usize,
                report_due: old(self)@.frames_seen as int % report_interval(
                    old(self)@.frame_rate,
                ) == 0,
            }),
    {
        if frame.width() != self.frame_width || frame.height() != self.frame_height {
            return Err(
                GeometryMismatch {
                    expected_width: self.frame_width,
                    expected_height: self.frame_height,
                    found_width: frame.width(),
                    found_height: frame.height(),
                },
            );
        }
        let rate: u64 = self.frame_rate as u64;
        assert(REPORT_FREQUENCY_AFTER_MS as int * rate as int <= 250 * 0x3fff_ffff
            && TRUNCATE_STATE_AFTER_MS as int * rate as int <= 2000 * 0x3fff_ffff
            && TRUNCATE_STATE_AFTER_MS as int * rate as int >= 2000) by (nonlinear_arith)
            requires
                1 <= rate <= 0x3fff_ffff,
                REPORT_FREQUENCY_AFTER_MS == 250,
                TRUNCATE_STATE_AFTER_MS == 2000,
        ;
        let report_frames: u64 = REPORT_FREQUENCY_AFTER_MS as u64 * rate / 1000;
        let report_every: u64 = if report_frames == 0 {
            1
        } else {
            report_frames
        };
        let truncate_every: u64 = TRUNCATE_STATE_AFTER_MS as u64 * rate / 1000;
        let frame_index: usize = self.frames_seen;
        let truncate_due: bool = frame_index as u64 % truncate_every == 0;

        self.push_pixel_values_to_oscillators(frame);
        let ghost pushed = self@;
        self.frames_seen = frame_index + 1;
        assert(self@ == (AnalyzerView { frames_seen: pushed.frames_seen + 1, ..pushed }));
        assert(self@ == old(self)@.ingest(frame@));
        if truncate_due {
            self.truncate_oscillators();
        }
        proof {
            let interval = truncate_interval(old(self)@.frame_rate);
            if !truncate_due && frame_index > 0 {
                lemma_next_remainder(frame_index as int, interval);
            }
            assert forall|i: int| 0 <= i < self@.patches.len() implies (
            #[trigger] self@.patches[i]).oscillator.samples.len() <= self@.window
                + self@.since_truncation() by {
                let before = old(self)@;
                assert(before.patches[i].oscillator.samples.len() <= before.window
                    + before.since_truncation());
            }
        }
        Ok(Cadence { frame_index, report_due: frame_index as u64 % report_every == 0 })
    }

    /// For each oscillator, the samples that its spectrum is to be taken of,
    /// or nothing where it has no signal: see [`Oscillator::window_samples`].
    pub fn spectral_inputs(&self) -> (inputs: Vec<Option<Vec<u8>>>)
        requires
            self.wf(),
        ensures
            inputs@.len() == self@.patches.len(),
            forall|i: int|
                0 <= i < inputs@.len() ==> ((#[trigger] inputs@[i]) is Some
                    <==> self@.patches[i].oscillator.has_signal()),
            forall|i: int|
                0 <= i < inputs@.len() ==> ((#[trigger] inputs@[i]) matches Some(samples)
                    ==> samples@ == self@.patches[i].oscillator.recent()),
    {
        let mut inputs: Vec<Option<Vec<u8>>> = Vec::new();
        let mut i: usize = 0;
        while i < self.patches.len()
            invariant
                i <= self.patches.len(),
                self.wf(),
                inputs@.len() == i,
                forall|j: int|
                    0 <= j < i ==> ((#[trigger] inputs@[j]) is Some
                        <==> self@.patches[j].oscillator.has_signal()),
                forall|j: int|
                    0 <= j < i ==> ((#[trigger] inputs@[j]) matches Some(samples) ==> samples@
                        == self@.patches[j].oscillator.recent()),
            decreases self.patches.len() - i,
        {
            assert(self@.patches[i as int] == self.patches@[i as int]@);
            inputs.push(self.patches[i].oscillator.window_samples());
            i = i + 1;
        }
        inputs
    }

    /// The frequency, in millionths of a hertz, that the oscillators agree
    /// on, or none if they do not. `spectra[i]` holds the magnitudes, in
    /// millionths, of the spectrum of the samples that
    /// [`Self::spectral_inputs`] gives for oscillator `i`, bin by bin; where
    /// that function gives nothing, `spectra[i]` is not looked at.
    pub fn frequency(&self, spectra: &Vec<Vec<u64>>) -> (frequency: Option<u64>)
        requires
            self.wf(),
            spectra@.len() == self@.patches.len(),
            forall|i: int|
                0 <= i < spectra@.len() ==> (#[trigger] spectra@[i])@.len() == self@.window,
        ensures
            frequency == self@.estimate(spectra.deep_view()),
    {
        let bins = self.relevant_bins();
        let mut votes: Vec<Option<usize>> = Vec::new();
        let mut i: usize = 0;
        while i < self.patches.len()
            invariant
                i <= self.patches.len(),
                self.wf(),
                bins@ == self@.band(),
                spectra@.len() == self@.patches.len(),
                forall|j: int|
                    0 <= j < spectra@.len() ==> (#[trigger] spectra@[j])@.len() == self@.window,
                votes@.len() == i,
                forall|j: int|
                    0 <= j < i ==> #[trigger] votes@[j] == self@.votes(spectra.deep_view())[j],
                forall|j: int|
                    0 <= j < i ==> (#[trigger] votes@[j] matches Some(bin) ==> bin < self@.window
                        / 2),
            decreases self.patches.len() - i,
        {
            assert(self@.patches[i as int] == self.patches@[i as int]@);
            assert(spectra.deep_view()[i as int] == spectra@[i as int]@);
            let vote = self.patches[i].oscillator.frequency_bin(&bins, &spectra[i]);
            votes.push(vote);
            i = i + 1;
        }
        assert(votes@ == self@.votes(spectra.deep_view()));
        estimate(self.frame_rate, self.window, &votes)
    }

    /// The report that is due, if one is: the analyzer reports on the last
    /// frame taken in if it is one of the frames on which reports are made, if
    /// it has not been asked about that frame before, and if the oscillators
    /// agree on a frequency. `spectra` is as in [`Self::frequency`].
    ///
    /// Reports thus come in ascending order of frame: each is on a frame at or
    /// above the floor, and raises the floor above its frame.
    pub fn report(&mut self, spectra: &Vec<Vec<u64>>) -> (report: Option<Report>)
        requires
            old(self).wf(),
            spectra@.len() == old(self)@.patches.len(),
            forall|i: int|
                0 <= i < spectra@.len() ==> (#[trigger] spectra@[i])@.len() == old(self)@.window,
        ensures
            final(self).wf(),
            final(self)@ == old(self)@.asked(),
            report == old(self)@.answer(spectra.deep_view()),
            report matches Some(r) ==> old(self)@.report_floor <= r.frame_index
                < final(self)@.report_floor,
    {
        if self.report_floor >= self.frames_seen {
            return None;
        }
        let frame_index: usize = self.frames_seen - 1;
        let rate: u64 = self.frame_rate as u64;
        assert(REPORT_FREQUENCY_AFTER_MS as int * rate as int <= 250 * 0x3fff_ffff)
            by (nonlinear_arith)
            requires
                1 <= rate <= 0x3fff_ffff,
                REPORT_FREQUENCY_AFTER_MS == 250,
        ;
        let report_frames: u64 = REPORT_FREQUENCY_AFTER_MS as u64 * rate / 1000;
        let report_every: u64 = if report_frames == 0 {
            1
        } else {
            report_frames
        };
        if frame_index as u64 % report_every != 0 {
            return None;
        }
        let found = self.frequency(spectra);
        let ghost before = self@;
        self.report_floor = self.frames_seen;
        assert(self@ == (AnalyzerView { report_floor: before.frames_seen, ..before }));
        match found {
            Some(frequency) => Some(Report { window: self.window, frame_index, frequency }),
            None => None,
        }
    }

    /// Truncates every oscillator: see [`Oscillator::truncate_state`].
    pub fn truncate_state(&mut self)
        requires
            old(self).wf(),
        ensures
            final(self).wf(),
            final(self)@ == old(self)@.truncate(),
    {
        self.truncate_oscillators();
        proof {
            assert forall|i: int| 0 <= i < self@.patches.len() implies (
            #[trigger] self@.patches[i]).oscillator.samples.len() <= self@.window
                + self@.since_truncation() by {
                let before = old(self)@;
                assert(before.patches[i].oscillator.samples.len() <= before.window
                    + before.since_truncation());
            }
        }
    }
}

/// The settings of the analyzer that watches a video of the given frame rate
/// and geometry through a window of the given number of seconds.
pub open spec fn builder_for(
    seconds: int,
    frame_rate: usize,
    frame_width: u32,
    frame_height: u32,
) -> AnalyzerBuilder {
    AnalyzerBuilder {
        frame_rate,
        window: (seconds * frame_rate) as usize,
        frame_width,
        frame_height,
    }
}

/// The settings of the analyzers that a video of the given frame rate and
/// geometry is watched with by default: one for each of the windows of four,
/// eight and twelve seconds.
pub fn default_builders(frame_rate: usize, frame_width: u32, frame_height: u32) -> (builders: Vec<
    AnalyzerBuilder,
>)
    requires
        12 * frame_rate <= usize::MAX,
    ensures
        builders@ == seq![
            builder_for(4, frame_rate, frame_width, frame_height),
            builder_for(8, frame_rate, frame_width, frame_height),
            builder_for(12, frame_rate, frame_width, frame_height),
        ],
{
    let short = AnalyzerBuilder { frame_rate, window: 4 * frame_rate, frame_width, frame_height };
    let medium = AnalyzerBuilder { window: 8 * frame_rate, ..short };
    let long = AnalyzerBuilder { window: 12 * frame_rate, ..short };
    let mut builders: Vec<AnalyzerBuilder> = Vec::new();
    builders.push(short);
    builders.push(medium);
    builders.push(long);
    builders
}

} // verus!
