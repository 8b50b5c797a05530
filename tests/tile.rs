use audiovis::{fill_column, SpectrogramTile};

#[test]
fn new_tile_is_filled() {
    let t = SpectrogramTile::new(3, 2, 0.0f32);
    assert_eq!(t.width, 3);
    assert_eq!(t.height(), 2);
    assert_eq!(t.into_inner(), vec![0.0f32; 6]);
}

#[test]
fn height_counts_whole_rows() {
    let t = SpectrogramTile::from_inner(4, vec![1u8; 11]);
    assert_eq!(t.height(), 2);
}

#[test]
fn set_pixel_writes_row_major() {
    let mut t = SpectrogramTile::new(3, 2, 0i32);
    t.set_pixel(2, 1, 7);
    t.set_pixel(0, 1, 5);
    assert_eq!(t.pixel(2, 1), 7);
    assert_eq!(t.into_inner(), vec![0, 0, 0, 5, 0, 7]);
}

#[test]
fn set_column_writes_every_row() {
    let mut t = SpectrogramTile::from_inner(2, vec![1, 2, 3, 4, 5, 6]);
    t.set_column(1, 0);
    assert_eq!(t.into_inner(), vec![1, 0, 3, 0, 5, 0]);
}

#[test]
fn from_inner_then_into_inner_keeps_cells() {
    let cells = vec![1.5f32, -2.0, 3.25, 0.0];
    let t = SpectrogramTile::from_inner(2, cells.clone());
    assert_eq!(t.width, 2);
    assert_eq!(t.into_inner(), cells);
}

#[test]
fn fill_column_looks_up_bins_and_floors_the_rest() {
    let mut t = SpectrogramTile::new(2, 3, 0.0f32);
    let levels = [-10.0f32, -20.0, -30.0];
    fill_column(&mut t, 1, &[2, 0, 5], &levels, f32::NEG_INFINITY);
    assert_eq!(t.into_inner(), vec![0.0, -30.0, 0.0, -10.0, 0.0, f32::NEG_INFINITY]);
}

#[test]
fn silent_spectrum_fills_floor_everywhere() {
    let mut t = SpectrogramTile::new(4, 3, 0.0f32);
    let levels = [f32::NEG_INFINITY; 5];
    for x in 0..4 {
        fill_column(&mut t, x, &[0, 2, 4], &levels, f32::NEG_INFINITY);
    }
    assert!(t.into_inner().iter().all(|v| *v == f32::NEG_INFINITY));
}
