use yolo_detect::encoder::{encode, swap_channels, to_tensor, EncodeError};
use yolo_detect::frame::Frame;
use yolo_detect::normalization::Normalization;
use yolo_detect::resize::resize;

fn frame(rows: usize, cols: usize, channels: usize, data: &[u8]) -> Frame {
    Frame::new(rows, cols, channels, data.to_vec()).expect("sample count matches dimensions")
}

fn two_by_two() -> Frame {
    frame(2, 2, 3, &[0, 10, 20, 30, 40, 50, 60, 70, 80, 90, 100, 255])
}

fn patterned() -> Frame {
    let mut data = Vec::new();
    for i in 0..20u32 {
        data.push((i * 7 % 256) as u8);
        data.push(((i * 13 + 5) % 256) as u8);
        data.push(((i * 29 + 11) % 256) as u8);
    }
    frame(4, 5, 3, &data)
}

#[test]
fn encode_widens_a_row() {
    let f = frame(1, 2, 3, &[10, 20, 30, 110, 120, 130]);
    let t = encode(&f, 1, 4, &Normalization::identity()).unwrap();
    assert_eq!(t.dims(), vec![1, 3, 1, 4]);
    assert_eq!(t.to_vec(), vec![30, 55, 105, 130, 20, 45, 95, 120, 10, 35, 85, 110]);
}

#[test]
fn encode_upsamples_in_both_directions() {
    let t = encode(&two_by_two(), 3, 3, &Normalization::identity()).unwrap();
    assert_eq!(t.dims(), vec![1, 3, 3, 3]);
    assert_eq!(
        t.to_vec(),
        vec![
            20, 35, 50, 50, 101, 153, 80, 168, 255, // first plane
            10, 25, 40, 40, 55, 70, 70, 85, 100, // second plane
            0, 15, 30, 30, 45, 60, 60, 75, 90, // third plane
        ]
    );
}

#[test]
fn encode_to_a_larger_uneven_size() {
    let t = encode(&two_by_two(), 4, 5, &Normalization::identity()).unwrap();
    assert_eq!(t.dims(), vec![1, 3, 4, 5]);
    assert_eq!(
        t.to_vec(),
        vec![
            20, 23, 35, 47, 50, 35, 42, 68, 95, 101, 65, 79, 134, 190, 204, 80, 98, 168, 238,
            255, 10, 13, 25, 37, 40, 25, 28, 40, 52, 55, 55, 58, 70, 82, 85, 70, 73, 85, 97, 100,
            0, 3, 15, 27, 30, 15, 18, 30, 42, 45, 45, 48, 60, 72, 75, 60, 63, 75, 87, 90,
        ]
    );
}

#[test]
fn encode_downsamples() {
    let t = encode(&patterned(), 3, 2, &Normalization::identity()).unwrap();
    assert_eq!(t.dims(), vec![1, 3, 3, 2]);
    assert_eq!(
        t.to_vec(),
        vec![57, 119, 122, 163, 188, 47, 26, 58, 112, 145, 199, 231, 11, 29, 58, 75, 104, 122]
    );
}

#[test]
fn encode_to_the_same_size_only_reorders() {
    let t = encode(&two_by_two(), 2, 2, &Normalization::identity()).unwrap();
    assert_eq!(t.to_vec(), vec![20, 50, 80, 255, 10, 40, 70, 100, 0, 30, 60, 90]);
}

#[test]
fn encode_applies_scale_and_offset() {
    let norm = Normalization::new(2, -255).unwrap();
    let t = encode(&two_by_two(), 1, 1, &norm).unwrap();
    assert_eq!(t.dims(), vec![1, 3, 1, 1]);
    assert_eq!(t.to_vec(), vec![-53, -145, -165]);
}

#[test]
fn encode_shape_is_one_three_height_width() {
    for (h, w) in [(1usize, 1usize), (2, 7), (5, 3), (16, 16), (1, 9)] {
        let t = encode(&patterned(), h, w, &Normalization::identity()).unwrap();
        assert_eq!(t.dims(), vec![1, 3, h, w]);
        assert_eq!(t.to_vec().len(), 3 * h * w);
    }
}

#[test]
fn encode_to_an_empty_target_gives_an_empty_tensor() {
    let t = encode(&two_by_two(), 0, 4, &Normalization::identity()).unwrap();
    assert_eq!(t.dims(), vec![1, 3, 0, 4]);
    assert!(t.to_vec().is_empty());
    let t = encode(&two_by_two(), 4, 0, &Normalization::identity()).unwrap();
    assert_eq!(t.dims(), vec![1, 3, 4, 0]);
    assert!(t.to_vec().is_empty());
}

#[test]
fn encode_is_deterministic() {
    let norm = Normalization::new(3, 7).unwrap();
    let a = encode(&patterned(), 9, 11, &norm).unwrap();
    let b = encode(&patterned(), 9, 11, &norm).unwrap();
    assert_eq!(a.dims(), b.dims());
    assert_eq!(a.to_vec(), b.to_vec());
}

#[test]
fn encode_values_stay_in_the_normalized_range() {
    let t = encode(&patterned(), 13, 17, &Normalization::identity()).unwrap();
    assert!(t.to_vec().iter().all(|v| (0..=255).contains(v)));
    let falling = Normalization::new(-2, 100).unwrap();
    let t = encode(&patterned(), 13, 17, &falling).unwrap();
    assert!(t.to_vec().iter().all(|v| (-410..=100).contains(v)));
}

#[test]
fn encode_rejects_a_frame_without_rows() {
    let f = frame(0, 4, 3, &[]);
    assert_eq!(encode(&f, 2, 2, &Normalization::identity()).err(), Some(EncodeError::EmptyFrame));
}

#[test]
fn encode_rejects_a_frame_without_columns() {
    let f = frame(4, 0, 3, &[]);
    assert_eq!(encode(&f, 2, 2, &Normalization::identity()).err(), Some(EncodeError::EmptyFrame));
}

#[test]
fn encode_rejects_an_empty_frame_whatever_its_channels() {
    let f = frame(0, 0, 1, &[]);
    assert_eq!(encode(&f, 2, 2, &Normalization::identity()).err(), Some(EncodeError::EmptyFrame));
}

#[test]
fn encode_rejects_one_channel() {
    let f = frame(1, 2, 1, &[1, 2]);
    assert_eq!(
        encode(&f, 2, 2, &Normalization::identity()).err(),
        Some(EncodeError::UnsupportedFormat)
    );
}

#[test]
fn encode_rejects_four_channels() {
    let f = frame(1, 1, 4, &[1, 2, 3, 4]);
    assert_eq!(
        encode(&f, 2, 2, &Normalization::identity()).err(),
        Some(EncodeError::UnsupportedFormat)
    );
}

#[test]
fn encode_rejects_no_channels() {
    let f = frame(2, 2, 0, &[]);
    assert_eq!(
        encode(&f, 2, 2, &Normalization::identity()).err(),
        Some(EncodeError::UnsupportedFormat)
    );
}

#[test]
fn swap_exchanges_first_and_third_channel() {
    let f = frame(1, 2, 3, &[1, 2, 3, 4, 5, 6]);
    let s = swap_channels(&f).unwrap();
    assert_eq!(s.samples(), &vec![3, 2, 1, 6, 5, 4]);
    assert_eq!((s.rows(), s.cols(), s.channels()), (1, 2, 3));
}

#[test]
fn swap_twice_restores_the_frame() {
    let f = patterned();
    let back = swap_channels(&swap_channels(&f).unwrap()).unwrap();
    assert_eq!(back.samples(), f.samples());
}

#[test]
fn swap_rejects_other_channel_counts() {
    let f = frame(1, 2, 2, &[1, 2, 3, 4]);
    assert_eq!(swap_channels(&f).err(), Some(EncodeError::UnsupportedFormat));
}

#[test]
fn resize_blends_neighbours() {
    let board = frame(2, 2, 1, &[0, 255, 255, 0]);
    let r = resize(&board, 3, 3).unwrap();
    assert_eq!(r.samples(), &vec![0, 128, 255, 128, 128, 128, 255, 128, 0]);
    assert_eq!((r.rows(), r.cols(), r.channels()), (3, 3, 1));
}

#[test]
fn resize_rounds_halves_up() {
    assert_eq!(resize(&frame(1, 2, 1, &[1, 2]), 1, 1).unwrap().samples(), &vec![2]);
    assert_eq!(resize(&frame(2, 2, 1, &[0, 255, 255, 0]), 1, 1).unwrap().samples(), &vec![128]);
}

#[test]
fn resize_halves_a_row() {
    assert_eq!(resize(&frame(1, 4, 1, &[0, 1, 2, 3]), 1, 2).unwrap().samples(), &vec![1, 3]);
}

#[test]
fn resize_clamps_at_the_borders() {
    let r = resize(&frame(1, 2, 1, &[0, 100]), 1, 8).unwrap();
    assert_eq!(r.samples(), &vec![0, 0, 13, 38, 63, 88, 100, 100]);
}

#[test]
fn resize_to_the_same_size_changes_nothing() {
    let f = patterned();
    let r = resize(&f, 4, 5).unwrap();
    assert_eq!(r.samples(), f.samples());
}

#[test]
fn resize_of_a_constant_frame_is_constant() {
    let f = frame(3, 2, 1, &[77; 6]);
    let r = resize(&f, 7, 5).unwrap();
    assert_eq!(r.samples(), &vec![77; 35]);
}

#[test]
fn resize_rejects_an_empty_frame() {
    assert_eq!(resize(&frame(0, 3, 1, &[]), 2, 2).err(), Some(EncodeError::EmptyFrame));
}

#[test]
fn to_tensor_puts_channels_first() {
    let f = frame(2, 2, 3, &[1, 2, 3, 4, 5, 6, 7, 8, 9, 10, 11, 12]);
    let t = to_tensor(&f, &Normalization::identity()).unwrap();
    assert_eq!(t.dims(), vec![1, 3, 2, 2]);
    assert_eq!(t.to_vec(), vec![1, 4, 7, 10, 2, 5, 8, 11, 3, 6, 9, 12]);
    assert_eq!(t.get(&[0, 2, 1, 0]), Some(9));
}

#[test]
fn to_tensor_rejects_other_channel_counts() {
    let f = frame(1, 1, 2, &[1, 2]);
    assert_eq!(
        to_tensor(&f, &Normalization::identity()).err(),
        Some(EncodeError::UnsupportedFormat)
    );
}

#[test]
fn encode_a_camera_sized_frame() {
    let rows = 480usize;
    let cols = 640usize;
    let mut data = Vec::with_capacity(rows * cols * 3);
    for y in 0..rows {
        for x in 0..cols {
            data.push((x % 256) as u8);
            data.push((y % 256) as u8);
            data.push(((x + y) % 256) as u8);
        }
    }
    let f = Frame::new(rows, cols, 3, data).unwrap();
    let t = encode(&f, 640, 640, &Normalization::identity()).unwrap();
    assert_eq!(t.dims(), vec![1, 3, 640, 640]);
    // Columns are not resampled, so the third plane repeats the first
    // channel of the frame along every row.
    for x in [0usize, 1, 255, 256, 639] {
        assert_eq!(t.get(&[0, 2, 0, x]), Some((x % 256) as i32));
        assert_eq!(t.get(&[0, 2, 639, x]), Some((x % 256) as i32));
    }
    // The first and the last row are copied from the frame's borders.
    assert_eq!(t.get(&[0, 1, 0, 17]), Some(0));
    assert_eq!(t.get(&[0, 1, 639, 17]), Some((479 % 256) as i32));
}
