use voice2text::audio::{downmix_i16, resample_with_windows, unchanged_by_resampling};

#[test]
fn downmix_stereo_averages_frames() {
    assert_eq!(downmix_i16(&[10, 20, -3, -4, 7, 8], 2), vec![15, -3, 7]);
}

#[test]
fn downmix_rounds_toward_zero_and_divides_short_tail_by_channels() {
    assert_eq!(downmix_i16(&[1, 2, -1, -2, 9], 2), vec![1, -1, 4]);
}

#[test]
fn downmix_mono_is_identity() {
    let data = vec![i16::MIN, -1, 0, 1, i16::MAX];
    assert_eq!(downmix_i16(&data, 1), data);
}

#[test]
fn downmix_extremes_stay_in_range() {
    assert_eq!(downmix_i16(&[i16::MIN, i16::MIN, i16::MAX, i16::MAX], 2), vec![i16::MIN, i16::MAX]);
    assert_eq!(downmix_i16(&[], 3), Vec::<i16>::new());
}

#[test]
fn resample_averages_each_window() {
    let samples = [3, 5, 7, -2, -3, 100];
    let windows = [(0, 3), (3, 5), (5, 6)];
    assert_eq!(resample_with_windows(&samples, &windows), vec![5, -2, 100]);
}

#[test]
fn resample_clips_and_handles_empty_windows() {
    let samples = [4, 8, 12];
    // clipped to the input; empty window takes the sample at its start;
    // a window past the end gives nothing
    let windows = [(1, 10), (2, 2), (5, 7)];
    assert_eq!(resample_with_windows(&samples, &windows), vec![10, 12]);
}

#[test]
fn resampling_shortcut() {
    assert_eq!(unchanged_by_resampling(&[1, 2], 16000, 16000), Some(vec![1, 2]));
    assert_eq!(unchanged_by_resampling(&[], 48000, 16000), Some(vec![]));
    assert_eq!(unchanged_by_resampling(&[1, 2], 48000, 16000), None);
}
