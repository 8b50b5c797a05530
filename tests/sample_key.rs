use audiovis::{sample_bits, sample_key};

#[test]
fn keys_sort_as_samples() {
    let samples = [-3.5f32, -1.0, -0.25, 0.0, 0.125, 1.0, 2.5];
    let keys: Vec<u32> = samples.iter().map(|s| sample_key(s.to_bits())).collect();
    for pair in keys.windows(2) {
        assert!(pair[0] < pair[1]);
    }
}

#[test]
fn keys_round_trip_to_samples() {
    for s in [-3.5f32, -0.0, 0.0, 0.75, f32::MAX, f32::MIN] {
        let k = sample_key(s.to_bits());
        assert_eq!(f32::from_bits(sample_bits(k)).to_bits(), s.to_bits());
    }
}

#[test]
fn key_of_positive_zero_is_sign_bit() {
    assert_eq!(sample_key(0), 0x8000_0000);
    assert_eq!(sample_key(0x8000_0000), 0x7fff_ffff);
}
