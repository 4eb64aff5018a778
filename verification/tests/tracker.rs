use cadence::frequency::Report;
use cadence::frequency_tracker::FrequencyTracker;

fn report(window: usize, frequency: u64) -> Report {
    Report { window, frame_index: 0, frequency }
}

#[test]
fn empty_tracker_knows_nothing() {
    let tracker = FrequencyTracker::new(30);
    assert_eq!(tracker.frame_rate(), 30);
    assert_eq!(tracker.calculate_latest(), None);
    assert!(tracker.reports().is_empty());
}

#[test]
fn single_report_is_the_consensus() {
    let mut tracker = FrequencyTracker::new(30);
    tracker.update(Report { window: 120, frame_index: 7, frequency: 2_000_000 });
    assert_eq!(tracker.calculate_latest(), Some(2_000_000));
}

#[test]
fn reports_are_kept_in_ascending_order_of_window() {
    let mut tracker = FrequencyTracker::new(30);
    tracker.update(report(240, 2));
    tracker.update(report(360, 3));
    tracker.update(report(120, 1));
    assert_eq!(tracker.reports(), &vec![report(120, 1), report(240, 2), report(360, 3)]);
}

#[test]
fn later_report_of_a_window_replaces_the_earlier() {
    let mut tracker = FrequencyTracker::new(30);
    tracker.update(report(120, 1));
    tracker.update(report(240, 2));
    tracker.update(report(360, 3));
    tracker.update(Report { window: 240, frame_index: 9, frequency: 5 });
    assert_eq!(
        tracker.reports(),
        &vec![report(120, 1), Report { window: 240, frame_index: 9, frequency: 5 }, report(360, 3)]
    );
    tracker.update(report(120, 7));
    tracker.update(report(360, 8));
    assert_eq!(
        tracker.reports(),
        &vec![report(120, 7), Report { window: 240, frame_index: 9, frequency: 5 }, report(360, 8)]
    );
}

#[test]
fn finer_report_within_one_bin_wins() {
    // one bin of the window of 120 frames at 30 frames a second is 0.25 Hz
    let mut tracker = FrequencyTracker::new(30);
    tracker.update(report(120, 2_000_000));
    tracker.update(report(240, 2_249_999));
    assert_eq!(tracker.calculate_latest(), Some(2_249_999));
    tracker.update(report(240, 1_750_001));
    assert_eq!(tracker.calculate_latest(), Some(1_750_001));
}

#[test]
fn finer_report_beyond_one_bin_loses() {
    let mut tracker = FrequencyTracker::new(30);
    tracker.update(report(120, 2_000_000));
    tracker.update(report(240, 2_600_000));
    assert_eq!(tracker.calculate_latest(), Some(2_000_000));
    tracker.update(report(240, 1_400_000));
    assert_eq!(tracker.calculate_latest(), Some(2_000_000));
}

#[test]
fn finer_report_exactly_one_bin_away_loses() {
    let mut tracker = FrequencyTracker::new(30);
    tracker.update(report(120, 2_000_000));
    tracker.update(report(240, 2_250_000));
    assert_eq!(tracker.calculate_latest(), Some(2_000_000));
    tracker.update(report(240, 1_750_000));
    assert_eq!(tracker.calculate_latest(), Some(2_000_000));
}

#[test]
fn consensus_walks_up_while_reports_agree() {
    let mut tracker = FrequencyTracker::new(30);
    tracker.update(report(120, 2_000_000));
    tracker.update(report(240, 2_100_000));
    tracker.update(report(360, 2_150_000));
    assert_eq!(tracker.calculate_latest(), Some(2_150_000));
}

#[test]
fn consensus_stops_at_the_first_disagreement() {
    // one bin of the window of 240 frames is 0.125 Hz
    let mut tracker = FrequencyTracker::new(30);
    tracker.update(report(120, 2_000_000));
    tracker.update(report(240, 2_100_000));
    tracker.update(report(360, 2_300_000));
    assert_eq!(tracker.calculate_latest(), Some(2_100_000));
    // a report that agrees again further up does not bring the walk back
    tracker.update(report(480, 2_300_000));
    assert_eq!(tracker.calculate_latest(), Some(2_100_000));
    tracker.update(report(240, 3_000_000));
    assert_eq!(tracker.calculate_latest(), Some(2_000_000));
}

#[test]
fn sensitivity_is_measured_by_the_rougher_window() {
    let mut tracker = FrequencyTracker::new(30);
    tracker.update(report(30, 2_000_000));
    // one bin of the window of 30 frames is 1 Hz
    tracker.update(report(3000, 2_900_000));
    assert_eq!(tracker.calculate_latest(), Some(2_900_000));
    let mut tracker = FrequencyTracker::new(30);
    tracker.update(report(3000, 2_900_000));
    // one bin of the window of 3000 frames is 0.01 Hz
    tracker.update(report(6000, 2_000_000));
    assert_eq!(tracker.calculate_latest(), Some(2_900_000));
}

#[test]
fn stale_frame_index_does_not_matter() {
    let mut tracker = FrequencyTracker::new(30);
    tracker.update(Report { window: 120, frame_index: 1000, frequency: 2_000_000 });
    tracker.update(Report { window: 240, frame_index: 3, frequency: 2_010_000 });
    assert_eq!(tracker.calculate_latest(), Some(2_010_000));
}

#[test]
fn only_the_newest_of_the_drained_reports_goes_in() {
    let mut tracker = FrequencyTracker::new(30);
    tracker.update_with_newest(&vec![
        Report { window: 120, frame_index: 7, frequency: 1_000_000 },
        Report { window: 120, frame_index: 14, frequency: 2_000_000 },
        Report { window: 120, frame_index: 21, frequency: 3_000_000 },
    ]);
    assert_eq!(
        tracker.reports(),
        &vec![Report { window: 120, frame_index: 21, frequency: 3_000_000 }]
    );
    tracker.update_with_newest(&vec![]);
    assert_eq!(
        tracker.reports(),
        &vec![Report { window: 120, frame_index: 21, frequency: 3_000_000 }]
    );
}

#[test]
fn extreme_reports_do_not_overflow() {
    let mut tracker = FrequencyTracker::new(usize::MAX);
    tracker.update(report(1, 0));
    tracker.update(report(usize::MAX, u64::MAX));
    assert_eq!(tracker.calculate_latest(), Some(u64::MAX));
    let mut tracker = FrequencyTracker::new(0);
    tracker.update(report(0, 5));
    tracker.update(report(1, 5));
    assert_eq!(tracker.calculate_latest(), Some(5));
}
