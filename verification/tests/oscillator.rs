use cadence::config::{MAGNITUDE_THRESHOLD, MIN_DEVIATION};
use cadence::oscillator::{largest_bin, Oscillator};

fn fed(window: usize, samples: &[u8]) -> Oscillator {
    let mut oscillator = Oscillator::new(window);
    for sample in samples {
        oscillator.push_pixel_value(*sample);
    }
    oscillator
}

#[test]
fn new_oscillator_is_empty() {
    let oscillator = Oscillator::new(4);
    assert_eq!(oscillator.window(), 4);
    assert_eq!(oscillator.len(), 0);
    assert_eq!(oscillator.mean(), 0);
    assert_eq!(oscillator.deviation(), 0);
    assert_eq!(oscillator.window_samples(), None);
}

#[test]
fn push_grows_the_buffer_by_one() {
    let mut oscillator = Oscillator::new(3);
    for n in 0..10usize {
        assert_eq!(oscillator.len(), n);
        oscillator.push_pixel_value(n as u8);
        assert_eq!(oscillator.len(), n + 1);
    }
    assert_eq!(oscillator.samples(), &vec![0, 1, 2, 3, 4, 5, 6, 7, 8, 9]);
}

#[test]
fn truncate_keeps_exactly_the_last_window() {
    let mut oscillator = fed(4, &[1, 2, 3, 4, 5, 6, 7]);
    oscillator.truncate_state();
    assert_eq!(oscillator.len(), 4);
    assert_eq!(oscillator.samples(), &vec![4, 5, 6, 7]);
}

#[test]
fn truncate_leaves_a_short_buffer_alone() {
    let mut oscillator = fed(4, &[1, 2, 3]);
    oscillator.truncate_state();
    assert_eq!(oscillator.samples(), &vec![1, 2, 3]);
    oscillator.push_pixel_value(4);
    oscillator.truncate_state();
    assert_eq!(oscillator.samples(), &vec![1, 2, 3, 4]);
}

#[test]
fn truncate_twice_is_truncate_once() {
    let mut oscillator = fed(2, &[9, 8, 7, 6, 5]);
    oscillator.truncate_state();
    oscillator.truncate_state();
    assert_eq!(oscillator.samples(), &vec![6, 5]);
}

#[test]
fn statistics_rest_until_the_window_is_full() {
    let oscillator = fed(4, &[10, 20, 30]);
    assert_eq!(oscillator.mean(), 0);
    assert_eq!(oscillator.deviation(), 0);
}

#[test]
fn full_window_sets_mean_and_deviation() {
    let oscillator = fed(4, &[10, 20, 30, 40]);
    assert_eq!(oscillator.mean(), 25_000_000);
    assert_eq!(oscillator.deviation(), 10_000_000);
}

#[test]
fn full_window_rounds_the_mean_down() {
    let oscillator = fed(3, &[0, 0, 1]);
    assert_eq!(oscillator.mean(), 333_333);
    // (333_333 + 333_333 + 666_667) / 3
    assert_eq!(oscillator.deviation(), 444_444);
}

#[test]
fn later_samples_smooth_the_statistics() {
    let oscillator = fed(4, &[10, 20, 30, 40, 50]);
    // (50 + 25 * 3) / 4
    assert_eq!(oscillator.mean(), 31_250_000);
    // (|31.25 - 50| + 10 * 3) / 4
    assert_eq!(oscillator.deviation(), 12_187_500);
}

#[test]
fn truncation_keeps_the_statistics() {
    let mut oscillator = fed(4, &[10, 20, 30, 40, 50]);
    oscillator.truncate_state();
    assert_eq!(oscillator.mean(), 31_250_000);
    assert_eq!(oscillator.deviation(), 12_187_500);
    oscillator.push_pixel_value(50);
    // (50 + 31.25 * 3) / 4
    assert_eq!(oscillator.mean(), 35_937_500);
}

#[test]
fn window_samples_are_the_last_window() {
    let oscillator = fed(4, &[0, 0, 0, 100, 200, 0, 200]);
    assert!(oscillator.deviation() >= MIN_DEVIATION);
    assert_eq!(oscillator.window_samples(), Some(vec![100, 200, 0, 200]));
}

#[test]
fn no_samples_are_handed_out_during_warm_up() {
    let oscillator = fed(4, &[0, 255, 0]);
    assert_eq!(oscillator.window_samples(), None);
}

#[test]
fn constant_stream_names_no_bin() {
    let mut spectrum = vec![0u64; 16];
    spectrum[3] = 900_000_000;
    for level in [0u8, 1, 77, 128, 255] {
        let mut oscillator = Oscillator::new(16);
        for n in 0..100 {
            oscillator.push_pixel_value(level);
            if n % 7 == 0 {
                oscillator.truncate_state();
            }
            assert_eq!(oscillator.frequency_bin(&(0..=16), &spectrum), None);
            assert_eq!(oscillator.window_samples(), None);
            if oscillator.len() >= 16 {
                assert_eq!(oscillator.mean(), level as u64 * 1_000_000);
                assert_eq!(oscillator.deviation(), 0);
            }
        }
    }
}

#[test]
fn quiet_oscillator_names_no_bin() {
    // deviation 9.5 grey levels: below the guard of 10
    let oscillator = fed(4, &[100, 119, 100, 119]);
    assert_eq!(oscillator.deviation(), 9_500_000);
    let spectrum = vec![0, 900_000_000, 0, 0];
    assert_eq!(oscillator.frequency_bin(&(0..=4), &spectrum), None);
}

#[test]
fn lively_oscillator_names_the_peak() {
    let oscillator = fed(8, &[0, 200, 0, 200, 0, 200, 0, 200]);
    assert_eq!(oscillator.deviation(), 100_000_000);
    let spectrum = vec![7, 6_000_000, 9_000_000, 8_000_000, 0, 0, 0, 0];
    assert_eq!(oscillator.frequency_bin(&(0..=8), &spectrum), Some(2));
}

#[test]
fn deviation_at_the_guard_passes() {
    let oscillator = fed(4, &[100, 120, 100, 120]);
    assert_eq!(oscillator.deviation(), MIN_DEVIATION);
    let spectrum = vec![0, 900_000_000, 0, 0];
    assert_eq!(oscillator.frequency_bin(&(0..=4), &spectrum), Some(1));
}

#[test]
fn warm_up_names_no_bin() {
    let oscillator = fed(8, &[0, 200, 0, 200, 0, 200, 0]);
    let spectrum = vec![0, 6_000_000, 9_000_000, 8_000_000, 0, 0, 0, 0];
    assert_eq!(oscillator.frequency_bin(&(0..=8), &spectrum), None);
}

#[test]
fn largest_bin_skips_the_constant_part() {
    let spectrum = vec![900_000_000, 6_000_000, 7_000_000, 6_500_000, 1, 1, 1, 1];
    assert_eq!(largest_bin(8, &(0..=8), &spectrum), Some(2));
}

#[test]
fn largest_bin_takes_the_lower_of_equals() {
    let spectrum = vec![0, 6_000_000, 7_000_000, 7_000_000, 0, 0, 0, 0];
    assert_eq!(largest_bin(8, &(0..=8), &spectrum), Some(2));
}

#[test]
fn largest_bin_stays_in_the_lower_half() {
    // bins 4 and above mirror the lower half and are never named
    let spectrum = vec![0, 6_000_000, 0, 0, 900_000_000, 900_000_000, 0, 0];
    assert_eq!(largest_bin(8, &(0..=8), &spectrum), Some(1));
    let spectrum = vec![0, 0, 0, 0, 900_000_000, 900_000_000, 0, 0];
    assert_eq!(largest_bin(8, &(0..=8), &spectrum), None);
}

#[test]
fn largest_bin_stays_in_the_band() {
    let spectrum = vec![0, 50_000_000, 6_000_000, 7_000_000, 8_000_000, 90_000_000, 0, 0, 0, 0, 0, 0];
    assert_eq!(largest_bin(12, &(2..=4), &spectrum), Some(4));
    assert_eq!(largest_bin(12, &(2..=3), &spectrum), Some(3));
    assert_eq!(largest_bin(12, &(3..=3), &spectrum), Some(3));
    assert_eq!(largest_bin(12, &(0..=12), &spectrum), Some(5));
}

#[test]
fn largest_bin_of_an_empty_band_is_none() {
    let spectrum = vec![0, 50_000_000, 6_000_000, 7_000_000, 8_000_000, 90_000_000, 0, 0, 0, 0, 0, 0];
    assert_eq!(largest_bin(12, &(4..=3), &spectrum), None);
    assert_eq!(largest_bin(12, &(6..=20), &spectrum), None);
    assert_eq!(largest_bin(12, &(0..=0), &spectrum), None);
}

#[test]
fn peak_at_the_threshold_is_not_enough() {
    let spectrum = vec![0, MAGNITUDE_THRESHOLD, 1, 1, 0, 0, 0, 0];
    assert_eq!(largest_bin(8, &(0..=8), &spectrum), None);
    let spectrum = vec![0, MAGNITUDE_THRESHOLD + 1, 1, 1, 0, 0, 0, 0];
    assert_eq!(largest_bin(8, &(0..=8), &spectrum), Some(1));
}

#[test]
fn tiny_windows_have_no_bins() {
    assert_eq!(largest_bin(0, &(0..=8), &vec![]), None);
    assert_eq!(largest_bin(1, &(0..=8), &vec![9_000_000]), None);
    assert_eq!(largest_bin(3, &(0..=8), &vec![9_000_000; 3]), None);
    assert_eq!(largest_bin(4, &(0..=8), &vec![9_000_000; 4]), Some(1));
}
