use cadence::frame::{Frame, GeometryMismatch};
use cadence::frequency::{
    default_builders, Analyzer, AnalyzerBuilder, AnalyzerError, Cadence, Report,
};
use cadence::vote::estimate;

fn builder(frame_rate: usize, window: usize, width: u32, height: u32) -> AnalyzerBuilder {
    AnalyzerBuilder { frame_rate, window, frame_width: width, frame_height: height }
}

fn flat(width: u32, height: u32, level: u8) -> Frame {
    Frame::from_raw(width, height, vec![level; (width * height) as usize]).unwrap()
}

/// The spectrum of `window` bins that has one peak, at `bin`.
fn peak(window: usize, bin: usize) -> Vec<u64> {
    let mut spectrum = vec![0; window];
    spectrum[bin] = 50_000_000;
    spectrum
}

/// An analyzer of a 4 by 4 frame whose oscillators, one on each of the given
/// patches, have seen a full window of lively samples.
fn warmed(frame_rate: usize, window: usize, places: &[(u32, u32)]) -> Analyzer {
    let mut analyzer = Analyzer::new(builder(frame_rate, window, 4, 4)).unwrap();
    for (x, y) in places {
        assert!(analyzer.track(*x, *y));
    }
    for n in 0..window {
        let level = if n % 2 == 0 { 0 } else { 100 };
        analyzer.push_frame(&flat(4, 4, level)).unwrap();
    }
    analyzer
}

#[test]
fn zero_frame_rate_is_refused() {
    assert_eq!(Analyzer::new(builder(0, 120, 320, 240)).err(), Some(AnalyzerError::ZeroFrameRate));
    assert_eq!(
        Analyzer::with_random_patches(builder(0, 0, 320, 240)).err(),
        Some(AnalyzerError::ZeroFrameRate)
    );
}

#[test]
fn zero_window_is_refused() {
    assert_eq!(Analyzer::new(builder(30, 0, 320, 240)).err(), Some(AnalyzerError::ZeroWindow));
    assert_eq!(
        Analyzer::with_random_patches(builder(30, 0, 320, 240)).err(),
        Some(AnalyzerError::ZeroWindow)
    );
}

#[test]
fn settings_beyond_the_largest_are_refused() {
    let largest = cadence::config::LARGEST_SETTING;
    assert!(Analyzer::new(builder(largest, largest, 4, 4)).is_ok());
    assert_eq!(
        Analyzer::new(builder(largest + 1, 120, 4, 4)).err(),
        Some(AnalyzerError::SettingsTooLarge)
    );
    assert_eq!(
        Analyzer::new(builder(30, largest + 1, 4, 4)).err(),
        Some(AnalyzerError::SettingsTooLarge)
    );
    assert_eq!(
        Analyzer::with_random_patches(builder(30, largest + 1, 1, 1)).err(),
        Some(AnalyzerError::SettingsTooLarge)
    );
}

#[test]
fn frame_without_room_for_a_patch_is_refused() {
    assert_eq!(
        Analyzer::with_random_patches(builder(30, 120, 2, 100)).err(),
        Some(AnalyzerError::FrameTooSmall)
    );
    assert_eq!(
        Analyzer::with_random_patches(builder(30, 120, 100, 1)).err(),
        Some(AnalyzerError::FrameTooSmall)
    );
    // without oscillators no room is needed
    let analyzer = Analyzer::with_random_patches(builder(30, 120, 2, 12)).unwrap();
    assert_eq!(analyzer.population(), 0);
    assert!(Analyzer::new(builder(30, 120, 2, 100)).is_ok());
}

#[test]
fn new_analyzer_has_no_oscillators() {
    let analyzer = Analyzer::new(builder(30, 120, 320, 240)).unwrap();
    assert_eq!(analyzer.frame_rate(), 30);
    assert_eq!(analyzer.window(), 120);
    assert_eq!(analyzer.population(), 0);
    assert_eq!(analyzer.frames_seen(), 0);
    assert!(analyzer.places().is_empty());
}

#[test]
fn random_patches_lie_inside_the_frame() {
    for _ in 0..20 {
        let analyzer = Analyzer::with_random_patches(builder(30, 120, 40, 30)).unwrap();
        let places = analyzer.places();
        assert!(!places.is_empty());
        assert!(places.len() <= 48);
        assert_eq!(places.len(), analyzer.population());
        for (x, y) in &places {
            assert!(*x < 38);
            assert!(*y < 28);
        }
        for i in 0..places.len() {
            for j in 0..i {
                assert_ne!(places[i], places[j]);
            }
            assert_eq!(analyzer.oscillator(i).len(), 0);
            assert_eq!(analyzer.oscillator(i).window(), 120);
        }
    }
}

#[test]
fn random_patches_stay_below_the_bound() {
    // three columns leave one place for a patch: column 0
    for _ in 0..20 {
        let analyzer = Analyzer::with_random_patches(builder(30, 120, 3, 100)).unwrap();
        let places = analyzer.places();
        assert!(!places.is_empty());
        assert!(places.len() <= 12);
        for (x, y) in &places {
            assert_eq!(*x, 0);
            assert!(*y < 98);
        }
    }
}

#[test]
fn random_patches_are_spread() {
    let analyzer = Analyzer::with_random_patches(builder(30, 120, 320, 240)).unwrap();
    let places = analyzer.places();
    assert!(places.len() <= 3072);
    assert!(places.len() > 2900);
    assert!(places.iter().any(|(x, _)| *x >= 159));
    assert!(places.iter().any(|(x, _)| *x < 159));
    assert!(places.iter().any(|(_, y)| *y >= 119));
    assert!(places.iter().any(|(_, y)| *y < 119));
}

#[test]
fn track_adds_and_replaces() {
    let mut analyzer = Analyzer::new(builder(30, 4, 4, 4)).unwrap();
    assert!(analyzer.track(0, 0));
    assert!(analyzer.track(2, 2));
    assert_eq!(analyzer.places(), vec![(0, 0), (2, 2)]);
    analyzer.push_frame(&flat(4, 4, 9)).unwrap();
    assert_eq!(analyzer.oscillator(0).len(), 1);
    // the later oscillator on a patch takes the place of the earlier one
    assert!(analyzer.track(0, 0));
    assert_eq!(analyzer.places(), vec![(0, 0), (2, 2)]);
    assert_eq!(analyzer.oscillator(0).len(), 0);
    assert_eq!(analyzer.oscillator(1).len(), 1);
}

#[test]
fn track_refuses_patches_that_stick_out() {
    let mut analyzer = Analyzer::new(builder(30, 4, 4, 3)).unwrap();
    assert!(analyzer.track(2, 1));
    assert!(!analyzer.track(3, 1));
    assert!(!analyzer.track(2, 2));
    assert!(!analyzer.track(u32::MAX, 0));
    assert!(!analyzer.track(0, u32::MAX));
    assert_eq!(analyzer.places(), vec![(2, 1)]);
}

#[test]
fn oscillator_samples_half_the_sum_of_its_patch() {
    let mut analyzer = Analyzer::new(builder(30, 4, 3, 3)).unwrap();
    analyzer.track(0, 0);
    analyzer.track(1, 0);
    analyzer.track(0, 1);
    analyzer.track(1, 1);
    let frame = Frame::from_raw(3, 3, vec![1, 2, 3, 10, 20, 30, 100, 101, 103]).unwrap();
    analyzer.push_frame(&frame).unwrap();
    // (1 + 10 + 2 + 20) / 2
    assert_eq!(analyzer.oscillator(0).samples(), &vec![16]);
    // (2 + 20 + 3 + 30) / 2
    assert_eq!(analyzer.oscillator(1).samples(), &vec![27]);
    // (10 + 100 + 20 + 101) / 2
    assert_eq!(analyzer.oscillator(2).samples(), &vec![115]);
    // (20 + 101 + 30 + 103) / 2 = 127
    assert_eq!(analyzer.oscillator(3).samples(), &vec![127]);
}

#[test]
fn bright_patches_wrap_around() {
    let mut analyzer = Analyzer::new(builder(30, 4, 2, 2)).unwrap();
    analyzer.track(0, 0);
    // 4 * 255 / 2 = 510, of which the lowest eight bits are 254
    analyzer.push_frame(&flat(2, 2, 255)).unwrap();
    // 4 * 128 / 2 = 256, of which the lowest eight bits are 0
    analyzer.push_frame(&flat(2, 2, 128)).unwrap();
    // 4 * 127 / 2 = 254
    analyzer.push_frame(&flat(2, 2, 127)).unwrap();
    assert_eq!(analyzer.oscillator(0).samples(), &vec![254, 0, 254]);
}

#[test]
fn frames_are_counted_from_zero() {
    let mut analyzer = Analyzer::new(builder(30, 4, 4, 4)).unwrap();
    for n in 0..20 {
        let cadence = analyzer.push_frame(&flat(4, 4, 0)).unwrap();
        assert_eq!(cadence.frame_index, n);
        assert_eq!(analyzer.frames_seen(), n + 1);
    }
}

#[test]
fn reports_are_due_every_quarter_of_a_second() {
    // 250 ms are 7 frames at 30 frames a second
    let mut analyzer = Analyzer::new(builder(30, 4, 4, 4)).unwrap();
    for n in 0..130usize {
        let cadence = analyzer.push_frame(&flat(4, 4, 0)).unwrap();
        assert_eq!(cadence, Cadence { frame_index: n, report_due: n % 7 == 0 });
    }
    // and 15 frames at 60 frames a second
    let mut analyzer = Analyzer::new(builder(60, 4, 4, 4)).unwrap();
    for n in 0..130usize {
        let cadence = analyzer.push_frame(&flat(4, 4, 0)).unwrap();
        assert_eq!(cadence, Cadence { frame_index: n, report_due: n % 15 == 0 });
    }
}

#[test]
fn slow_video_reports_on_every_frame() {
    // 250 ms are less than one frame at 3 frames a second
    let mut analyzer = Analyzer::new(builder(3, 4, 4, 4)).unwrap();
    for n in 0..20usize {
        let cadence = analyzer.push_frame(&flat(4, 4, 0)).unwrap();
        assert_eq!(cadence, Cadence { frame_index: n, report_due: true });
    }
}

#[test]
fn buffers_are_cut_back_every_two_seconds() {
    // 2000 ms are 60 frames at 30 frames a second
    let mut analyzer = Analyzer::new(builder(30, 4, 4, 4)).unwrap();
    analyzer.track(0, 0);
    analyzer.track(1, 2);
    for n in 0..200usize {
        analyzer.push_frame(&flat(4, 4, (n % 100) as u8)).unwrap();
        let held = if n < 60 { n + 1 } else { 4 + n % 60 };
        for i in 0..2 {
            assert_eq!(analyzer.oscillator(i).len(), held);
            assert!(analyzer.oscillator(i).len() <= 4 + 59);
        }
        if n >= 3 {
            // the last four samples are there whatever was cut
            let recent: Vec<u8> = (n - 3..=n).map(|m| (m % 100 * 2) as u8).collect();
            let samples = analyzer.oscillator(0).samples();
            assert_eq!(samples[samples.len() - 4..], recent[..]);
        }
    }
}

#[test]
fn default_windows_hold_two_windows_at_most() {
    let settings = default_builders(5, 4, 4);
    let mut analyzer = Analyzer::new(settings[0]).unwrap();
    analyzer.track(0, 0);
    for _ in 0..300 {
        analyzer.push_frame(&flat(4, 4, 1)).unwrap();
        assert!(analyzer.oscillator(0).len() <= 2 * 20);
    }
}

#[test]
fn frame_of_another_geometry_changes_nothing() {
    let mut analyzer = Analyzer::new(builder(30, 4, 4, 4)).unwrap();
    analyzer.track(1, 1);
    analyzer.push_frame(&flat(4, 4, 3)).unwrap();
    assert_eq!(
        analyzer.push_frame(&flat(4, 5, 3)).err(),
        Some(GeometryMismatch {
            expected_width: 4,
            expected_height: 4,
            found_width: 4,
            found_height: 5,
        })
    );
    assert!(analyzer.push_frame(&flat(8, 2, 3)).is_err());
    assert_eq!(analyzer.frames_seen(), 1);
    assert_eq!(analyzer.oscillator(0).len(), 1);
}

#[test]
fn relevant_bins_cover_the_band_of_interest() {
    // 0.8 * 120 / 30 = 3.2 and 4.0 * 120 / 30 = 16
    let analyzer = Analyzer::new(builder(30, 120, 4, 4)).unwrap();
    assert_eq!(analyzer.relevant_bins(), 3..=16);
    let analyzer = Analyzer::new(builder(30, 360, 4, 4)).unwrap();
    assert_eq!(analyzer.relevant_bins(), 9..=48);
    // 0.8 * 150 / 30 = 4 exactly
    let analyzer = Analyzer::new(builder(30, 150, 4, 4)).unwrap();
    assert_eq!(analyzer.relevant_bins(), 4..=20);
    let analyzer = Analyzer::new(builder(25, 100, 4, 4)).unwrap();
    assert_eq!(analyzer.relevant_bins(), 3..=16);
    let largest = cadence::config::LARGEST_SETTING;
    let analyzer = Analyzer::new(builder(1, largest, 4, 4)).unwrap();
    assert_eq!(analyzer.relevant_bins(), 858993458..=4294967292);
}

#[test]
fn truncation_reaches_every_oscillator() {
    let mut analyzer = Analyzer::new(builder(30, 3, 4, 4)).unwrap();
    analyzer.track(0, 0);
    analyzer.track(2, 2);
    for level in 0..10 {
        analyzer.push_frame(&flat(4, 4, level)).unwrap();
    }
    assert_eq!(analyzer.oscillator(0).len(), 10);
    analyzer.truncate_state();
    for i in 0..2 {
        assert_eq!(analyzer.oscillator(i).samples(), &vec![14, 16, 18]);
    }
    assert_eq!(analyzer.frames_seen(), 10);
}

#[test]
fn spectral_inputs_follow_the_oscillators() {
    let mut analyzer = Analyzer::new(builder(30, 4, 4, 4)).unwrap();
    analyzer.track(0, 0);
    analyzer.track(2, 0);
    let frames: [[u8; 4]; 5] = [[0, 7, 0, 7], [50, 7, 50, 7], [0, 7, 0, 7], [50, 7, 50, 7], [0, 7, 0, 7]];
    for (n, row) in frames.iter().enumerate() {
        if n == 3 {
            assert_eq!(analyzer.spectral_inputs(), vec![None, None]);
        }
        let mut pixels = vec![];
        for _ in 0..4 {
            pixels.extend_from_slice(&[row[0], row[0], row[1], row[1]]);
        }
        analyzer.push_frame(&Frame::from_raw(4, 4, pixels).unwrap()).unwrap();
    }
    // the first oscillator swings between 0 and 100, the second sees 14 throughout
    assert_eq!(analyzer.spectral_inputs(), vec![Some(vec![100, 0, 100, 0]), None]);
}

#[test]
fn unanimous_oscillators_report_the_frequency_of_their_bin() {
    let analyzer = warmed(30, 120, &[(0, 0), (1, 0), (2, 0), (0, 2), (2, 2)]);
    let spectra = vec![peak(120, 8); 5];
    // 8 * 30 / 120 Hz
    assert_eq!(analyzer.frequency(&spectra), Some(2_000_000));
    let spectra = vec![peak(120, 13); 5];
    assert_eq!(analyzer.frequency(&spectra), Some(3_250_000));
}

#[test]
fn neighbouring_bins_are_weighed_by_their_votes() {
    let analyzer = warmed(30, 120, &[(0, 0), (1, 0), (2, 0), (0, 2)]);
    let spectra = vec![peak(120, 8), peak(120, 8), peak(120, 9), peak(120, 8)];
    // (2.0 * 3 + 2.25 * 1) / 4 Hz
    assert_eq!(analyzer.frequency(&spectra), Some(2_062_500));
}

#[test]
fn bins_outside_the_band_get_no_votes() {
    let analyzer = warmed(30, 120, &[(0, 0), (1, 0), (2, 0)]);
    // the band of an analyzer of 30 frames a second and 120 samples is 3..=16
    let spectra = vec![peak(120, 2); 3];
    assert_eq!(analyzer.frequency(&spectra), None);
    let spectra = vec![peak(120, 17); 3];
    assert_eq!(analyzer.frequency(&spectra), None);
    let spectra = vec![peak(120, 3); 3];
    assert_eq!(analyzer.frequency(&spectra), Some(750_000));
    let spectra = vec![peak(120, 16); 3];
    assert_eq!(analyzer.frequency(&spectra), Some(4_000_000));
}

#[test]
fn silent_oscillators_report_nothing() {
    let analyzer = warmed(30, 120, &[(0, 0), (1, 0), (2, 0)]);
    let spectra = vec![vec![0; 120]; 3];
    assert_eq!(analyzer.frequency(&spectra), None);
    let analyzer = Analyzer::new(builder(30, 120, 4, 4)).unwrap();
    assert_eq!(analyzer.frequency(&vec![]), None);
}

#[test]
fn oscillators_without_signal_have_no_vote() {
    let mut analyzer = Analyzer::new(builder(30, 8, 4, 4)).unwrap();
    analyzer.track(0, 0);
    analyzer.track(2, 2);
    for _ in 0..8 {
        analyzer.push_frame(&flat(4, 4, 60)).unwrap();
    }
    let spectra = vec![peak(8, 1); 2];
    assert_eq!(analyzer.frequency(&spectra), None);
}

#[test]
fn report_is_made_once_for_a_frame_on_which_one_is_due() {
    let mut analyzer = warmed(30, 12, &[(0, 0), (1, 1)]);
    let spectra = vec![peak(12, 1); 2];
    // 12 frames are in: number 11 is not one on which a report is due
    assert_eq!(analyzer.report(&spectra), None);
    analyzer.push_frame(&flat(4, 4, 0)).unwrap();
    analyzer.push_frame(&flat(4, 4, 100)).unwrap();
    let cadence = analyzer.push_frame(&flat(4, 4, 0)).unwrap();
    assert_eq!(cadence.frame_index, 14);
    assert!(cadence.report_due);
    assert_eq!(
        analyzer.report(&spectra),
        Some(Report { window: 12, frame_index: 14, frequency: 2_500_000 })
    );
    assert_eq!(analyzer.report(&spectra), None);
}

#[test]
fn report_waits_for_agreement() {
    let mut analyzer = Analyzer::new(builder(30, 12, 4, 4)).unwrap();
    analyzer.track(0, 0);
    let spectra = vec![peak(12, 1)];
    // the first frame is one on which a report is due, but nothing is known yet
    let cadence = analyzer.push_frame(&flat(4, 4, 0)).unwrap();
    assert!(cadence.report_due);
    assert_eq!(analyzer.report(&spectra), None);
}

#[test]
fn reports_carry_ascending_frames() {
    let mut analyzer = Analyzer::new(builder(30, 12, 4, 4)).unwrap();
    analyzer.track(0, 0);
    analyzer.track(2, 1);
    let spectra = vec![peak(12, 1); 2];
    let mut frames = vec![];
    for n in 0..200usize {
        let level = if n % 2 == 0 { 0 } else { 100 };
        let cadence = analyzer.push_frame(&flat(4, 4, level)).unwrap();
        if let Some(report) = analyzer.report(&spectra) {
            assert!(cadence.report_due);
            assert_eq!(report.window, 12);
            assert_eq!(report.frame_index, n);
            assert_eq!(report.frequency, 2_500_000);
            frames.push(report.frame_index);
        }
    }
    // frames 14, 21, ..., 196: every seventh once the window of 12 is full
    assert_eq!(frames, (2..=28).map(|n| n * 7).collect::<Vec<usize>>());
}

#[test]
fn estimate_of_unanimous_votes() {
    assert_eq!(estimate(30, 120, &vec![Some(8); 10]), Some(2_000_000));
    assert_eq!(estimate(30, 120, &vec![Some(8)]), Some(2_000_000));
    assert_eq!(estimate(30, 120, &vec![Some(1); 3]), Some(250_000));
    assert_eq!(estimate(30, 120, &vec![Some(59); 3]), Some(14_750_000));
    // 7 * 25 / 90 Hz, rounded down to the millionth
    assert_eq!(estimate(25, 90, &vec![Some(7); 4]), Some(1_944_444));
}

#[test]
fn estimate_weighs_the_winning_pair() {
    let votes = vec![Some(8), Some(9), Some(9), Some(9)];
    // (2.0 * 1 + 2.25 * 3) / 4 Hz
    assert_eq!(estimate(30, 120, &votes), Some(2_187_500));
    let votes = vec![Some(8), Some(9), None, Some(9), None, Some(8)];
    assert_eq!(estimate(30, 120, &votes), Some(2_125_000));
    // 7 votes for 1/3 Hz and 2 for 2/3 Hz: 30 * (1 * 7 + 2 * 2) / (90 * 9) Hz
    let mut votes = vec![Some(1); 7];
    votes.extend(vec![Some(2); 2]);
    assert_eq!(estimate(30, 90, &votes), Some(407_407));
}

#[test]
fn estimate_needs_more_than_half_of_the_votes() {
    // the pair of bins 8 and 9 has two votes of four
    let votes = vec![Some(8), Some(9), Some(20), Some(30)];
    assert_eq!(estimate(30, 120, &votes), None);
    // and three of five
    let votes = vec![Some(8), Some(9), Some(20), Some(30), Some(9)];
    assert_eq!(estimate(30, 120, &votes), Some(2_166_666));
    // oscillators that name no bin are not counted
    let votes = vec![Some(8), None, None, None, None];
    assert_eq!(estimate(30, 120, &votes), Some(2_000_000));
}

#[test]
fn estimate_takes_the_lower_of_equal_pairs() {
    // pairs (7, 8), (8, 9) and (9, 10) have three votes each
    let votes = vec![Some(8), Some(8), Some(8), Some(10), Some(10), Some(10)];
    assert_eq!(estimate(30, 120, &votes), None);
    // pairs (8, 9) and (9, 10) have four votes each of five: bins 8 and 9 win
    let votes = vec![Some(8), Some(9), Some(9), Some(9), Some(10)];
    // 30 * (8 * 1 + 9 * 3) / (120 * 4) Hz
    assert_eq!(estimate(30, 120, &votes), Some(2_187_500));
}

#[test]
fn estimate_of_no_votes_is_none() {
    assert_eq!(estimate(30, 120, &vec![]), None);
    assert_eq!(estimate(30, 120, &vec![None; 7]), None);
    assert_eq!(estimate(30, 3, &vec![None; 7]), None);
    assert_eq!(estimate(30, 1, &vec![]), None);
}

#[test]
fn estimate_with_large_settings() {
    let largest = cadence::config::LARGEST_SETTING;
    // 499_999 * largest / 1_000_000 Hz
    assert_eq!(
        estimate(largest, 1_000_000, &vec![Some(499_999); 3]),
        Some(499_999 * largest as u64)
    );
    // (499_998 * 1 + 499_999 * 2) * largest / (1_000_000 * 3) Hz
    assert_eq!(
        estimate(largest, 1_000_000, &vec![Some(499_999), Some(499_998), Some(499_999)]),
        Some(1_499_996 * largest as u64 / 3)
    );
    assert_eq!(estimate(0, 1_000_000, &vec![Some(499_999); 3]), Some(0));
}

#[test]
fn default_analyzers_watch_four_eight_and_twelve_seconds() {
    assert_eq!(
        default_builders(30, 320, 240),
        vec![builder(30, 120, 320, 240), builder(30, 240, 320, 240), builder(30, 360, 320, 240)]
    );
    assert_eq!(
        default_builders(0, 1, 2),
        vec![builder(0, 0, 1, 2), builder(0, 0, 1, 2), builder(0, 0, 1, 2)]
    );
}
