use audiovis::copy_centered_window;

fn window_of(center: usize, data: &[i32], len: usize) -> Vec<i32> {
    let mut out = vec![-1; len];
    copy_centered_window(center, data, &mut out, 0);
    out
}

#[test]
fn window_fully_inside_data() {
    let data: Vec<i32> = (0..10).collect();
    assert_eq!(window_of(5, &data, 4), vec![3, 4, 5, 6]);
}

#[test]
fn window_tail_past_end() {
    let data: Vec<i32> = (0..10).collect();
    assert_eq!(window_of(8, &data, 6), vec![5, 6, 7, 8, 9, 0]);
}

#[test]
fn window_head_before_start() {
    let data: Vec<i32> = (0..10).collect();
    assert_eq!(window_of(1, &data, 6), vec![0, 0, 0, 1, 2, 3]);
}

#[test]
fn window_surrounds_data() {
    let data = vec![1, 2, 3];
    assert_eq!(window_of(1, &data, 8), vec![0, 0, 0, 1, 2, 3, 0, 0]);
}

#[test]
fn window_odd_length() {
    let data: Vec<i32> = (0..10).collect();
    assert_eq!(window_of(5, &data, 3), vec![4, 5, 6]);
}

#[test]
fn window_of_float_samples_keeps_length_and_zero_pads() {
    let data = [0.5f32, -0.25, 1.0];
    let mut out = [9.0f32; 4];
    copy_centered_window(2, &data, &mut out, 0.0);
    assert_eq!(out, [0.5, -0.25, 1.0, 0.0]);
}

#[test]
fn window_every_center_matches_definition() {
    let data: Vec<i32> = (1..=7).collect();
    for len in 0..12usize {
        for center in 0..data.len() {
            let got = window_of(center, &data, len);
            assert_eq!(got.len(), len);
            for (i, v) in got.iter().enumerate() {
                let j = center as isize - (len / 2) as isize + i as isize;
                let want = if j >= 0 && (j as usize) < data.len() { data[j as usize] } else { 0 };
                assert_eq!(*v, want);
            }
        }
    }
}
