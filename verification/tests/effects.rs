use voice_changer::factor::Factor;
use voice_changer::utils::{
    apply_gain, apply_pan, detect_peaks, downsample, fade_in, fade_out, merge_audio_channels,
    normalize_volume, split_audio_channels, trim_silence, validate_audio_data,
};

#[test]
fn validate_rejects_only_empty_buffers() {
    assert!(!validate_audio_data(&vec![]));
    assert!(validate_audio_data(&vec![0]));
    assert!(validate_audio_data(&vec![1, 2, 3]));
}

#[test]
fn unit_gain_is_identity() {
    let buffer = vec![0u8, 1, 10, 128, 254, 255];
    assert_eq!(apply_gain(buffer.clone(), Factor::from_milli(1000)), buffer);
}

#[test]
fn unit_gain_is_identity_on_empty_buffer() {
    assert_eq!(apply_gain(vec![], Factor::one()), Vec::<u8>::new());
}

#[test]
fn gain_scales_truncating_toward_zero() {
    // 5 * 0.5 = 2.5 truncates to 2; 100 * 2 = 200
    assert_eq!(apply_gain(vec![5, 100], Factor::from_milli(500)), vec![2, 50]);
    assert_eq!(apply_gain(vec![100], Factor::from_milli(2000)), vec![200]);
}

#[test]
fn gain_output_stays_within_sample_range() {
    let buffer = vec![0u8, 1, 100, 200, 255];
    for milli in [0u32, 1, 999, 1000, 2000, 1_000_000, u32::MAX] {
        let out = apply_gain(buffer.clone(), Factor::from_milli(milli));
        assert_eq!(out.len(), buffer.len());
        for s in out {
            assert!(s <= 255);
        }
    }
}

#[test]
fn gain_clamps_at_maximum() {
    assert_eq!(apply_gain(vec![200, 255], Factor::from_milli(2000)), vec![255, 255]);
}

#[test]
fn zero_gain_silences_everything() {
    assert_eq!(apply_gain(vec![1, 128, 255], Factor::from_milli(0)), vec![0, 0, 0]);
}

#[test]
fn fade_in_ramps_from_silence() {
    // ramp i/4 over the first four samples
    assert_eq!(fade_in(vec![200, 200, 200, 200], 4), vec![0, 50, 100, 150]);
}

#[test]
fn fade_in_with_zero_duration_is_identity() {
    assert_eq!(fade_in(vec![9, 9, 9], 0), vec![9, 9, 9]);
}

#[test]
fn fade_in_leaves_samples_past_duration_untouched() {
    assert_eq!(fade_in(vec![100, 100, 100, 100], 2), vec![0, 50, 100, 100]);
}

#[test]
fn fade_out_ramps_toward_silence_at_the_end() {
    // sample at distance i from the end is scaled by i/4
    assert_eq!(fade_out(vec![200, 200, 200, 200], 4), vec![150, 100, 50, 0]);
}

#[test]
fn full_fade_in_then_out_silences_both_ends() {
    let buffer = vec![200u8, 180, 90, 255, 40];
    let len = buffer.len();
    let out = fade_out(fade_in(buffer, len), len);
    assert_eq!(out.first(), Some(&0));
    assert_eq!(out.last(), Some(&0));
}

#[test]
fn normalize_of_all_zero_buffer_is_all_zero() {
    assert_eq!(normalize_volume(vec![0, 0, 0], Factor::from_milli(255_000)), vec![0, 0, 0]);
}

#[test]
fn normalize_of_empty_buffer_is_empty() {
    assert_eq!(normalize_volume(vec![], Factor::from_milli(255_000)), Vec::<u8>::new());
}

#[test]
fn normalize_carries_the_loudest_sample_to_the_target() {
    // max 100; 50 * 255 / 100 = 127.5 truncates to 127
    assert_eq!(
        normalize_volume(vec![50, 100], Factor::from_milli(255_000)),
        vec![127, 255]
    );
}

#[test]
fn trim_keeps_all_silent_buffer_whole() {
    // no sample exceeds the threshold: the documented fallback returns
    // the entire buffer unchanged, not an empty one
    assert_eq!(trim_silence(vec![10, 10, 10], 200), vec![10, 10, 10]);
}

#[test]
fn trim_cuts_to_the_loud_range() {
    assert_eq!(trim_silence(vec![0, 5, 9, 0], 4), vec![5, 9]);
    assert_eq!(trim_silence(vec![1, 200, 1], 100), vec![200]);
}

#[test]
fn trim_of_empty_buffer_is_empty() {
    assert_eq!(trim_silence(vec![], 0), Vec::<u8>::new());
}

#[test]
fn trim_at_extreme_thresholds() {
    assert_eq!(trim_silence(vec![0, 1, 0], 0), vec![1]);
    assert_eq!(trim_silence(vec![255, 255], 255), vec![255, 255]);
}

#[test]
fn downsample_keeps_every_nth_sample() {
    assert_eq!(downsample(vec![1, 2, 3, 4, 5], 2), vec![1, 3, 5]);
    assert_eq!(downsample(vec![1, 2, 3, 4], 3), vec![1, 4]);
}

#[test]
fn downsample_by_one_is_identity() {
    assert_eq!(downsample(vec![7, 8, 9], 1), vec![7, 8, 9]);
}

#[test]
fn downsample_by_more_than_length_keeps_the_first_sample() {
    assert_eq!(downsample(vec![7, 8, 9], 10), vec![7]);
}

#[test]
fn pan_reweights_the_buffer_halves() {
    // pan 0.5: both halves scaled by one half
    assert_eq!(
        apply_pan(vec![100, 100, 50, 50], Factor::from_milli(500)),
        vec![50, 50, 25, 25]
    );
}

#[test]
fn pan_zero_keeps_the_leading_half_and_silences_the_rest() {
    assert_eq!(apply_pan(vec![80, 80, 90, 90], Factor::from_milli(0)), vec![80, 80, 0, 0]);
}

#[test]
fn pan_above_one_silences_the_leading_half_and_clamps_the_rest() {
    assert_eq!(
        apply_pan(vec![80, 80, 200, 10], Factor::from_milli(2000)),
        vec![0, 0, 255, 20]
    );
}

#[test]
fn pan_splits_odd_buffers_with_the_shorter_leading_half() {
    // midpoint of 3 is 1: one leading sample, two trailing
    assert_eq!(apply_pan(vec![100, 100, 100], Factor::from_milli(0)), vec![100, 0, 0]);
}

#[test]
fn split_divides_at_the_midpoint() {
    assert_eq!(split_audio_channels(vec![1, 2, 3, 4]), (vec![1, 2], vec![3, 4]));
    assert_eq!(split_audio_channels(vec![1, 2, 3]), (vec![1], vec![2, 3]));
    assert_eq!(split_audio_channels(vec![]), (vec![], vec![]));
}

#[test]
fn merge_interleaves_and_appends_the_longer_tail() {
    assert_eq!(merge_audio_channels(vec![1, 2], vec![3, 4]), vec![1, 3, 2, 4]);
    assert_eq!(merge_audio_channels(vec![1, 2, 3], vec![9]), vec![1, 9, 2, 3]);
    assert_eq!(merge_audio_channels(vec![], vec![5, 6]), vec![5, 6]);
    assert_eq!(merge_audio_channels(vec![], vec![]), Vec::<u8>::new());
}

#[test]
fn split_then_merge_preserves_length() {
    for buffer in [vec![], vec![9], vec![1, 2], vec![1, 2, 3], vec![1, 2, 3, 4, 5, 6]] {
        let len = buffer.len();
        let (left, right) = split_audio_channels(buffer);
        assert_eq!(merge_audio_channels(left, right).len(), len);
    }
}

#[test]
fn split_then_merge_reproduces_a_buffer_matching_the_convention() {
    // two-sample buffers and constant buffers interleave their own
    // halves, so the round trip is exact for them
    let pair = vec![3u8, 9];
    let (left, right) = split_audio_channels(pair.clone());
    assert_eq!(merge_audio_channels(left, right), pair);

    let constant = vec![7u8, 7, 7, 7, 7, 7];
    let (left, right) = split_audio_channels(constant.clone());
    assert_eq!(merge_audio_channels(left, right), constant);
}

#[test]
fn detect_peaks_lists_indices_above_the_threshold() {
    assert_eq!(detect_peaks(&vec![0, 5, 200, 6, 255], 100), vec![2, 4]);
}

#[test]
fn detect_peaks_finds_nothing_in_silence() {
    assert_eq!(detect_peaks(&vec![0, 0, 0], 0), Vec::<usize>::new());
    assert_eq!(detect_peaks(&vec![], 128), Vec::<usize>::new());
}

#[test]
fn detect_peaks_is_strict_at_the_threshold() {
    // only strictly greater samples are peaks
    assert_eq!(detect_peaks(&vec![100, 101, 99], 100), vec![1]);
    assert_eq!(detect_peaks(&vec![255, 255], 255), Vec::<usize>::new());
}
