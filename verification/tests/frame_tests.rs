use yolo_detect::frame::Frame;
use yolo_detect::normalization::Normalization;

#[test]
fn frame_needs_one_sample_per_channel_of_each_pixel() {
    assert!(Frame::new(2, 3, 3, vec![0; 18]).is_some());
    assert!(Frame::new(2, 3, 3, vec![0; 17]).is_none());
    assert!(Frame::new(2, 3, 3, vec![0; 19]).is_none());
    assert!(Frame::new(2, 3, 3, vec![]).is_none());
}

#[test]
fn frame_without_pixels_holds_no_samples() {
    assert!(Frame::new(0, 3, 3, vec![]).is_some());
    assert!(Frame::new(3, 0, 3, vec![]).is_some());
    assert!(Frame::new(3, 3, 0, vec![]).is_some());
    assert!(Frame::new(0, 3, 3, vec![1]).is_none());
}

#[test]
fn frame_dimensions_that_overflow_are_rejected() {
    assert!(Frame::new(usize::MAX, usize::MAX, 3, vec![]).is_none());
    assert!(Frame::new(usize::MAX, 1, 3, vec![1, 2, 3]).is_none());
    assert!(Frame::new(usize::MAX, usize::MAX, 0, vec![]).is_some());
}

#[test]
fn frame_reports_what_it_was_built_from() {
    let f = Frame::new(2, 1, 3, vec![1, 2, 3, 4, 5, 6]).unwrap();
    assert_eq!((f.rows(), f.cols(), f.channels()), (2, 1, 3));
    assert_eq!(f.samples(), &vec![1, 2, 3, 4, 5, 6]);
    assert!(!f.is_empty());
    assert!(Frame::new(0, 1, 3, vec![]).unwrap().is_empty());
    assert!(Frame::new(1, 0, 3, vec![]).unwrap().is_empty());
}

#[test]
fn frame_samples_are_row_major() {
    let data: Vec<u8> = (0..24).collect();
    let f = Frame::new(2, 4, 3, data).unwrap();
    for y in 0..2usize {
        for x in 0..4usize {
            for c in 0..3usize {
                assert_eq!(f.sample(y, x, c), ((y * 4 + x) * 3 + c) as u8);
            }
        }
    }
}

#[test]
fn normalization_is_linear() {
    let n = Normalization::new(3, -10).unwrap();
    assert_eq!(n.apply(0), -10);
    assert_eq!(n.apply(1), -7);
    assert_eq!(n.apply(255), 755);
    assert_eq!((n.scale(), n.offset()), (3, -10));
}

#[test]
fn identity_normalization_keeps_samples() {
    let n = Normalization::identity();
    assert_eq!(n.apply(0), 0);
    assert_eq!(n.apply(200), 200);
    assert_eq!(n.apply(255), 255);
}

#[test]
fn normalization_must_fit_in_thirty_two_bits() {
    assert!(Normalization::new(i32::MAX, 0).is_none());
    assert!(Normalization::new(1, i32::MAX).is_none());
    assert!(Normalization::new(-1, i32::MIN).is_none());
    assert!(Normalization::new(i32::MIN, 0).is_none());
    assert!(Normalization::new(8_421_504, 127).is_some());
    assert!(Normalization::new(8_421_504, 128).is_none());
    assert!(Normalization::new(-1, i32::MIN + 255).is_some());
    assert!(Normalization::new(0, i32::MIN).is_some());
    assert_eq!(Normalization::new(8_421_504, 127).unwrap().apply(255), i32::MAX);
}
