use audiovis::waveform::{BACKGROUND, CHUNK_SIZE, PAINTED};
use audiovis::{aggregate_minmax, clamp_range, paint_columns, paint_columns_bytes, sample_bits, sample_key, WaveformRenderer};

fn keys_of(samples: &[f32]) -> Vec<u32> {
    samples.iter().map(|s| sample_key(s.to_bits())).collect()
}

fn sample_of(key: u32) -> f32 {
    f32::from_bits(sample_bits(key))
}

fn signal(n: usize) -> Vec<f32> {
    (0..n).map(|i| ((i as f32) * 0.05).sin() * (1.0 - i as f32 / n as f32)).collect()
}

#[test]
fn clamp_range_inside() {
    assert_eq!(clamp_range(3, 7, 10), (3, 7));
}

#[test]
fn clamp_range_start_past_end() {
    assert_eq!(clamp_range(12, 15, 10), (9, 9));
}

#[test]
fn clamp_range_end_before_start() {
    assert_eq!(clamp_range(5, 2, 10), (5, 5));
}

#[test]
fn clamp_range_end_past_max() {
    assert_eq!(clamp_range(2, 20, 10), (2, 9));
}

#[test]
fn aggregate_of_no_pairs_is_none() {
    assert_eq!(aggregate_minmax(&[]), None);
}

#[test]
fn aggregate_is_union_of_pairs() {
    assert_eq!(aggregate_minmax(&[(1, 5), (0, 3), (2, 9)]), Some((0, 9)));
}

#[test]
fn zoomed_in_column_has_sample_min_and_max() {
    let samples = vec![0.5f32, -0.25, 0.75, 0.0, -1.0];
    let r = WaveformRenderer::new(keys_of(&samples));
    let spans = r.column_spans(false, &vec![(0, 2), (3, 10), (7, 9)]);
    let spans: Vec<(f32, f32)> = spans.iter().map(|s| {
        let (lo, hi) = s.unwrap();
        (sample_of(lo), sample_of(hi))
    }).collect();
    assert_eq!(spans, vec![(-0.25, 0.75), (-1.0, 0.0), (-1.0, -1.0)]);
}

#[test]
fn zoomed_out_column_reads_chunk_pairs() {
    // 300 samples: two full chunks and one of 44
    let mut samples = vec![0.0f32; 300];
    samples[10] = 0.9;
    samples[200] = -0.8;
    samples[299] = 0.95;
    let r = WaveformRenderer::new(keys_of(&samples));
    let spans = r.column_spans(true, &vec![(0, 0), (1, 1), (2, 7), (0, 2)]);
    let spans: Vec<(f32, f32)> = spans.iter().map(|s| {
        let (lo, hi) = s.unwrap();
        (sample_of(lo), sample_of(hi))
    }).collect();
    assert_eq!(spans, vec![(0.0, 0.9), (-0.8, 0.0), (0.0, 0.95), (-0.8, 0.95)]);
}

#[test]
fn zoom_paths_agree_on_covered_samples() {
    let samples = signal(1000);
    let r = WaveformRenderer::new(keys_of(&samples));
    let chunks = (1000 + CHUNK_SIZE - 1) / CHUNK_SIZE;
    for a in 0..chunks {
        for b in a..chunks {
            let out = r.column_spans(true, &vec![(a, b)]);
            let last = ((b + 1) * CHUNK_SIZE).min(1000) - 1;
            let inside = r.column_spans(false, &vec![(a * CHUNK_SIZE, last)]);
            assert_eq!(out, inside);
        }
    }
}

#[test]
fn two_sample_buffer_has_one_chunk() {
    let r = WaveformRenderer::new(keys_of(&[0.25, -0.5]));
    let spans = r.column_spans(true, &vec![(0, 0), (5, 9)]);
    let want = Some((sample_key((-0.5f32).to_bits()), sample_key(0.25f32.to_bits())));
    assert_eq!(spans, vec![want, want]);
}

#[test]
fn paint_marks_clamped_spans() {
    let spans = vec![Some((1, 2)), None, Some((3, 9))];
    let px = paint_columns(3, 4, &spans);
    let rows: Vec<Vec<u32>> = px.chunks(3).map(|r| r.to_vec()).collect();
    assert_eq!(rows, vec![
        vec![BACKGROUND, BACKGROUND, BACKGROUND],
        vec![PAINTED, BACKGROUND, BACKGROUND],
        vec![PAINTED, BACKGROUND, BACKGROUND],
        vec![BACKGROUND, BACKGROUND, PAINTED],
    ]);
}

#[test]
fn paint_reversed_span_paints_its_start() {
    let px = paint_columns(1, 3, &vec![Some((1, 0))]);
    assert_eq!(px, vec![BACKGROUND, PAINTED, BACKGROUND]);
}

#[test]
fn paint_bytes_are_opaque_white_or_clear() {
    let spans = vec![Some((0, 0)), None];
    let bytes = paint_columns_bytes(2, 2, &spans);
    assert_eq!(bytes, vec![255, 255, 255, 255, 0, 0, 0, 0, 0, 0, 0, 0, 0, 0, 0, 0]);
}
