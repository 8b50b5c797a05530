use audiovis::{column_sample, sample_key, select_resolution, PassStep, Resolution, SpectrogramPass};

fn key(rate: f32) -> u32 {
    sample_key(rate.to_bits())
}

#[test]
fn column_sample_before_start_is_none() {
    assert_eq!(column_sample(-1, 10), None);
}

#[test]
fn column_sample_past_end_is_none() {
    assert_eq!(column_sample(10, 10), None);
}

#[test]
fn column_sample_inside_is_index() {
    assert_eq!(column_sample(0, 10), Some(0));
    assert_eq!(column_sample(9, 10), Some(9));
}

#[test]
fn requirement_equal_to_quarter_rate_picks_quarter() {
    assert_eq!(select_resolution(key(11025.0), key(22050.0), key(11025.0)), Resolution::Quarter);
}

#[test]
fn requirement_above_quarter_rate_picks_half() {
    assert_eq!(select_resolution(key(11025.5), key(22050.0), key(11025.0)), Resolution::Half);
    assert_eq!(select_resolution(key(22050.0), key(22050.0), key(11025.0)), Resolution::Half);
}

#[test]
fn requirement_above_half_rate_picks_full() {
    assert_eq!(select_resolution(key(30000.0), key(22050.0), key(11025.0)), Resolution::Full);
}

#[test]
fn low_requirement_picks_quarter() {
    assert_eq!(select_resolution(key(1000.0), key(22050.0), key(11025.0)), Resolution::Quarter);
}

#[test]
fn level_window_sizes() {
    assert_eq!(Resolution::Full.window_size(2048), 2048);
    assert_eq!(Resolution::Half.window_size(2048), 1024);
    assert_eq!(Resolution::Quarter.window_size(2048), 512);
    assert_eq!(Resolution::Quarter.divisor(), 4);
}

#[test]
fn pass_fills_out_of_buffer_columns_with_floor() {
    let mut pass = SpectrogramPass::new(vec![0, 1], vec![-1, 0, 5, 2], 3, f32::NEG_INFINITY);
    assert_eq!(pass.advance(), PassStep::Transform(0));
    pass.supply(&[-1.0, -2.0]);
    assert_eq!(pass.advance(), PassStep::Transform(2));
    pass.supply(&[-3.0]);
    assert_eq!(pass.advance(), PassStep::Done);
    let ninf = f32::NEG_INFINITY;
    assert_eq!(
        pass.finish().into_inner(),
        vec![ninf, -1.0, ninf, -3.0, ninf, -2.0, ninf, ninf]
    );
}

#[test]
fn pass_over_silence_is_floor_everywhere() {
    let ninf = f32::NEG_INFINITY;
    let mut pass = SpectrogramPass::new(vec![0, 3, 1], vec![0, 1, 2, 3, 4], 5, ninf);
    let mut transforms = 0;
    while let PassStep::Transform(_) = pass.advance() {
        pass.supply(&[ninf; 8]);
        transforms += 1;
    }
    assert_eq!(transforms, 5);
    let tile = pass.finish();
    assert_eq!(tile.height(), 3);
    assert!(tile.into_inner().iter().all(|v| *v == ninf));
}

#[test]
fn pass_with_no_column_in_buffer_asks_nothing() {
    let mut pass = SpectrogramPass::new(vec![0], vec![-3, 7], 4, 0u8);
    assert_eq!(pass.advance(), PassStep::Done);
    assert_eq!(pass.finish().into_inner(), vec![0, 0]);
}
