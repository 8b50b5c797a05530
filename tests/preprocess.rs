use audiovis::{downsampled_len, fft_size_for, fit_downsampled, fit_len, low_band};

#[test]
fn fft_size_is_next_power_of_two() {
    assert_eq!(fft_size_for(1), 1);
    assert_eq!(fft_size_for(2), 2);
    assert_eq!(fft_size_for(3), 4);
    assert_eq!(fft_size_for(44100), 65536);
    assert_eq!(fft_size_for(65536), 65536);
    assert_eq!(fft_size_for(65537), 131072);
}

#[test]
fn downsampled_lengths_round_up() {
    assert_eq!(downsampled_len(44100, 2), 22051);
    assert_eq!(downsampled_len(44100, 4), 11026);
    assert_eq!(downsampled_len(7, 2), 4);
    assert_eq!(downsampled_len(7, 4), 2);
    assert_eq!(downsampled_len(2, 4), 1);
}

#[test]
fn low_band_keeps_low_bins_and_clears_nyquist() {
    let spectrum: Vec<i32> = (10..19).collect();
    assert_eq!(low_band(&spectrum, 2, 0), vec![10, 11, 12, 13, 0]);
    assert_eq!(low_band(&spectrum, 4, 0), vec![10, 11, 0]);
}

#[test]
fn fit_len_truncates() {
    assert_eq!(fit_len(&[1.0f32, 2.0, 3.0], 2, 0.0), vec![1.0, 2.0]);
}

#[test]
fn fit_len_pads_with_zero() {
    assert_eq!(fit_len(&[1.0f32, 2.0], 4, 0.0), vec![1.0, 2.0, 0.0, 0.0]);
}

#[test]
fn half_rate_length_for_power_of_two_buffer() {
    // 8 samples: transform of 8, spectrum of 5 bins, 2 kept plus a cleared one
    let n = 8usize;
    let size = fft_size_for(n);
    let spectrum = vec![1i32; size / 2 + 1];
    let band = low_band(&spectrum, 2, 0);
    assert_eq!(band.len(), 3);
    let inverse_out = vec![1i32; 2 * (band.len() - 1)];
    let half = fit_len(&inverse_out, downsampled_len(n, 2), 0);
    assert_eq!(half, vec![1, 1, 1, 1, 0]);
}

#[test]
fn fit_downsampled_gives_ceil_length() {
    let out = fit_downsampled(&[1i32, 2, 3, 4, 5, 6, 7, 8], 8, 2, 0);
    assert_eq!(out, vec![1, 2, 3, 4, 5]);
    let quarter = fit_downsampled(&[1i32, 2], 8, 4, 0);
    assert_eq!(quarter, vec![1, 2, 0]);
}
