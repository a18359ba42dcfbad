use yolo_detect::decoder::{
    can_decode, collect_candidates, confidence, decode, read_prediction, to_corners,
};
use yolo_detect::detection::Detection;
use yolo_detect::geometry::BoundingBox;
use yolo_detect::tensor::Tensor;

/// Coordinates are written in thousandths, scores in millionths.
fn three_predictions() -> Tensor {
    let data: Vec<i32> = vec![
        10_000, 10_000, 100_000, // centre x
        10_000, 10_000, 100_000, // centre y
        4_000, 4_000, 4_000, // width
        4_000, 4_000, 4_000, // height
        900_000, 800_000, 700_000, // score
    ];
    Tensor::from_shape_vec(vec![1, 5, 3], data).expect("shape matches data")
}

fn square(cx: i64, cy: i64, half: i64, confidence: i32) -> Detection {
    Detection {
        bbox: BoundingBox { x1: cx - half, y1: cy - half, x2: cx + half, y2: cy + half },
        confidence,
    }
}

#[test]
fn near_duplicate_is_suppressed() {
    let out = decode(&three_predictions(), 500_000, 450_000);
    assert_eq!(
        out,
        vec![square(10_000, 10_000, 2_000, 900_000), square(100_000, 100_000, 2_000, 700_000)]
    );
}

#[test]
fn high_confidence_threshold_leaves_nothing() {
    let out = decode(&three_predictions(), 950_000, 450_000);
    assert!(out.is_empty());
}

#[test]
fn rank_two_output_decodes_to_nothing() {
    let t = Tensor::from_shape_vec(vec![5, 3], vec![1; 15]).unwrap();
    assert!(decode(&t, 0, 450_000).is_empty());
}

#[test]
fn rank_one_and_rank_four_outputs_decode_to_nothing() {
    let one = Tensor::from_shape_vec(vec![15], vec![1; 15]).unwrap();
    assert!(decode(&one, 0, 450_000).is_empty());
    let four = Tensor::from_shape_vec(vec![1, 5, 3, 1], vec![1; 15]).unwrap();
    assert!(decode(&four, 0, 450_000).is_empty());
}

#[test]
fn too_few_feature_rows_decode_to_nothing() {
    let t = Tensor::from_shape_vec(vec![1, 3, 2], vec![1; 6]).unwrap();
    assert!(decode(&t, -1, 450_000).is_empty());
}

#[test]
fn empty_batch_decodes_to_nothing() {
    let t = Tensor::from_shape_vec(vec![0, 5, 3], vec![]).unwrap();
    assert!(decode(&t, -1, 450_000).is_empty());
}

#[test]
fn no_predictions_decode_to_nothing() {
    let t = Tensor::from_shape_vec(vec![1, 5, 0], vec![]).unwrap();
    assert!(decode(&t, -1, 450_000).is_empty());
}

#[test]
fn threshold_is_strict() {
    let t = three_predictions();
    assert_eq!(decode(&t, 700_000, 450_000).len(), 1);
    assert_eq!(decode(&t, 699_999, 450_000).len(), 2);
}

#[test]
fn raising_the_threshold_keeps_a_leading_part() {
    let t = three_predictions();
    let mut previous = decode(&t, -1, 450_000);
    for threshold in [0, 100_000, 699_999, 700_000, 800_000, 899_999, 900_000, 1_000_000] {
        let current = decode(&t, threshold, 450_000);
        assert!(current.len() <= previous.len());
        assert_eq!(current[..], previous[..current.len()]);
        previous = current;
    }
    assert!(previous.is_empty());
}

#[test]
fn confidence_is_the_best_class_score() {
    let data: Vec<i32> = vec![
        0, 0, // centre x
        0, 0, // centre y
        2, 2, // width
        2, 2, // height
        100, -5, // class 0
        300, -7, // class 1
        200, -9, // class 2
    ];
    let t = Tensor::from_shape_vec(vec![1, 7, 2], data).unwrap();
    assert_eq!(confidence(&t, 0), 300);
    assert_eq!(confidence(&t, 1), -5);
}

#[test]
fn confidence_without_score_rows_is_zero() {
    let t = Tensor::from_shape_vec(vec![1, 4, 1], vec![5, 5, 2, 2]).unwrap();
    assert_eq!(confidence(&t, 0), 0);
    assert_eq!(decode(&t, -1, 450_000).len(), 1);
    assert!(decode(&t, 0, 450_000).is_empty());
}

#[test]
fn only_the_first_batch_entry_is_read() {
    let data: Vec<i32> = vec![
        10, 10, 4, 4, 900_000, // batch 0, one prediction
        50, 50, 4, 4, 990_000, // batch 1
    ];
    let t = Tensor::from_shape_vec(vec![2, 5, 1], data).unwrap();
    assert_eq!(decode(&t, 0, 450_000), vec![square(10, 10, 2, 900_000)]);
}

#[test]
fn corners_are_centre_plus_and_minus_half_the_size() {
    assert_eq!(to_corners(10, 20, 4, 6), BoundingBox { x1: 8, y1: 17, x2: 12, y2: 23 });
}

#[test]
fn halves_round_down() {
    assert_eq!(to_corners(10, 10, 5, 7), BoundingBox { x1: 8, y1: 7, x2: 12, y2: 13 });
    assert_eq!(to_corners(0, 0, -3, -4), BoundingBox { x1: 2, y1: 2, x2: -2, y2: -2 });
    assert_eq!(to_corners(0, 0, -1, 1), BoundingBox { x1: 1, y1: 0, x2: -1, y2: 0 });
}

#[test]
fn corners_of_extreme_values_do_not_overflow() {
    let b = to_corners(i32::MAX, i32::MIN, i32::MIN, i32::MAX);
    assert_eq!(b.x1, i32::MAX as i64 + (1i64 << 30));
    assert_eq!(b.x2, i32::MAX as i64 - (1i64 << 30));
    assert_eq!(b.y1, i32::MIN as i64 - ((1i64 << 30) - 1));
    assert_eq!(b.y2, i32::MIN as i64 + ((1i64 << 30) - 1));
}

#[test]
fn read_prediction_reads_one_column() {
    let t = three_predictions();
    assert_eq!(read_prediction(&t, 1), square(10_000, 10_000, 2_000, 800_000));
    assert_eq!(read_prediction(&t, 2), square(100_000, 100_000, 2_000, 700_000));
}

#[test]
fn candidates_keep_tensor_order() {
    let data: Vec<i32> = vec![
        1, 2, 3, 4, // centre x
        0, 0, 0, 0, // centre y
        2, 2, 2, 2, // width
        2, 2, 2, 2, // height
        10, 50, 5, 30, // score
    ];
    let t = Tensor::from_shape_vec(vec![1, 5, 4], data).unwrap();
    let found = collect_candidates(&t, 9);
    let xs: Vec<i64> = found.iter().map(|d| d.bbox.x1).collect();
    assert_eq!(xs, vec![0, 1, 3]);
}

#[test]
fn decoded_list_is_descending_and_free_of_overlap() {
    let data: Vec<i32> = vec![
        10, 11, 50, 12, 51, 90, // centre x
        10, 11, 50, 12, 51, 90, // centre y
        8, 8, 8, 8, 8, 8, // width
        8, 8, 8, 8, 8, 8, // height
        300, 900, 500, 700, 800, 100, // score
    ];
    let t = Tensor::from_shape_vec(vec![1, 5, 6], data).unwrap();
    let out = decode(&t, 0, 300_000);
    let confidences: Vec<i32> = out.iter().map(|d| d.confidence).collect();
    assert_eq!(confidences, vec![900, 800, 100]);
    for i in 0..out.len() {
        for j in (i + 1)..out.len() {
            assert!(!yolo_detect::geometry::exceeds_overlap(&out[i].bbox, &out[j].bbox, 300_000));
        }
    }
}

const PIXEL: f32 = 1000.0;
const ONE: f32 = 1_000_000.0;

/// Builds a raw output of shape `[1, 5, n]` from predictions given as
/// (centre x, centre y, width, height, score) in floating point.
fn raw_output(predictions: &[(f32, f32, f32, f32, f32)]) -> Tensor {
    let n = predictions.len();
    let mut data = vec![0i32; 5 * n];
    for (i, p) in predictions.iter().enumerate() {
        data[i] = (p.0 * PIXEL).round() as i32;
        data[n + i] = (p.1 * PIXEL).round() as i32;
        data[2 * n + i] = (p.2 * PIXEL).round() as i32;
        data[3 * n + i] = (p.3 * PIXEL).round() as i32;
        data[4 * n + i] = (p.4 * ONE).round() as i32;
    }
    Tensor::from_shape_vec(vec![1, 5, n], data).unwrap()
}

fn as_floats(d: &Detection) -> ([f32; 4], f32) {
    (
        [
            d.bbox.x1 as f32 / PIXEL,
            d.bbox.y1 as f32 / PIXEL,
            d.bbox.x2 as f32 / PIXEL,
            d.bbox.y2 as f32 / PIXEL,
        ],
        d.confidence as f32 / ONE,
    )
}

#[test]
fn scenario_in_floating_point_keeps_first_and_far_box() {
    let output = raw_output(&[
        (10.0, 10.0, 4.0, 4.0, 0.9),
        (10.0, 10.0, 4.0, 4.0, 0.8),
        (100.0, 100.0, 4.0, 4.0, 0.7),
    ]);
    let out = decode(&output, (0.5 * ONE) as i32, (0.45 * ONE) as i32);
    assert_eq!(out.len(), 2);
    assert_eq!(as_floats(&out[0]), ([8.0, 8.0, 12.0, 12.0], 0.9));
    assert_eq!(as_floats(&out[1]), ([98.0, 98.0, 102.0, 102.0], 0.7));
}

#[test]
fn scenario_in_floating_point_with_high_threshold_is_empty() {
    let output = raw_output(&[
        (10.0, 10.0, 4.0, 4.0, 0.9),
        (10.0, 10.0, 4.0, 4.0, 0.8),
        (100.0, 100.0, 4.0, 4.0, 0.7),
    ]);
    assert!(decode(&output, (0.95 * ONE) as i32, (0.45 * ONE) as i32).is_empty());
}

#[test]
fn can_decode_tells_shapes_apart() {
    assert!(can_decode(&three_predictions()));
    assert!(can_decode(&Tensor::from_shape_vec(vec![1, 4, 0], vec![]).unwrap()));
    assert!(!can_decode(&Tensor::from_shape_vec(vec![5, 3], vec![0; 15]).unwrap()));
    assert!(!can_decode(&Tensor::from_shape_vec(vec![1, 3, 1], vec![0; 3]).unwrap()));
    assert!(!can_decode(&Tensor::from_shape_vec(vec![0, 5, 3], vec![]).unwrap()));
    assert!(!can_decode(&Tensor::from_shape_vec(vec![1, 5, 3, 1], vec![0; 15]).unwrap()));
}

fn one_prediction(score: i32) -> Tensor {
    Tensor::from_shape_vec(vec![1, 5, 1], vec![5_000, 5_000, 2_000, 2_000, score]).unwrap()
}

#[test]
fn negative_score_below_the_threshold_is_discarded() {
    assert!(decode(&one_prediction(-700_000), -500_000, 450_000).is_empty());
}

#[test]
fn negative_score_above_the_threshold_keeps_its_value() {
    let out = decode(&one_prediction(-300_000), -500_000, 450_000);
    assert_eq!(out, vec![square(5_000, 5_000, 1_000, -300_000)]);
}

#[test]
fn confidence_is_the_largest_score_even_when_all_are_negative() {
    let data: Vec<i32> = vec![
        5, 6, // centre x
        5, 6, // centre y
        2, 2, // width
        2, 2, // height
        -900, -1, // class 0
        -800, -7, // class 1
    ];
    let t = Tensor::from_shape_vec(vec![1, 6, 2], data).unwrap();
    assert_eq!(confidence(&t, 0), -800);
    assert_eq!(confidence(&t, 1), -1);
    let out = decode(&t, -850, 1_000_000);
    let confidences: Vec<i32> = out.iter().map(|d| d.confidence).collect();
    assert_eq!(confidences, vec![-1, -800]);
}

#[test]
fn first_detection_carries_the_largest_score() {
    let data: Vec<i32> = vec![
        10, 500, 900, // centre x
        10, 500, 900, // centre y
        4, 4, 4, // width
        4, 4, 4, // height
        300, 700, 500, // class 0
        100, 200, 900, // class 1
    ];
    let t = Tensor::from_shape_vec(vec![1, 6, 3], data).unwrap();
    let out = decode(&t, 0, 450_000);
    let confidences: Vec<i32> = out.iter().map(|d| d.confidence).collect();
    assert_eq!(confidences, vec![900, 700, 300]);
}

#[test]
fn slightest_overlap_exceeds_a_zero_threshold() {
    // The boxes share one unit square of 7,999,999: a ratio above zero that
    // rounds down to zero millionths.
    let data: Vec<i32> = vec![
        1_000, 2_999, // centre x
        1_000, 2_999, // centre y
        2_000, 2_000, // width
        2_000, 2_000, // height
        900_000, 800_000, // score
    ];
    let t = Tensor::from_shape_vec(vec![1, 5, 2], data).unwrap();
    let out = decode(&t, 0, 0);
    assert_eq!(out.len(), 1);
    assert_eq!(out[0].bbox, BoundingBox { x1: 0, y1: 0, x2: 2_000, y2: 2_000 });
    assert_eq!(decode(&t, 0, 1).len(), 2);
}

#[test]
fn decoded_boxes_can_be_suppressed_again() {
    let out = decode(&three_predictions(), 500_000, 450_000);
    assert_eq!(yolo_detect::suppression::nms(out.clone(), 450_000), out);
}

#[test]
fn decode_a_model_sized_output() {
    let features = 84usize;
    let count = 8400usize;
    let mut data = vec![0i32; features * count];
    for i in 0..count {
        let column = (i % 80) as i32;
        let row = (i / 80) as i32;
        data[i] = column * 8_000 + 4_000;
        data[count + i] = row * 6_000 + 3_000;
        data[2 * count + i] = 8_000;
        data[3 * count + i] = 6_000;
        // One class score per prediction; every seventh is confident.
        let class = 4 + (i % 80);
        data[class * count + i] = if i % 7 == 0 { 600_000 + (i % 1000) as i32 } else { 100_000 };
    }
    let t = Tensor::from_shape_vec(vec![1, features, count], data).unwrap();
    let out = decode(&t, 500_000, 450_000);
    // The boxes tile the plane without overlap, so nothing is suppressed.
    assert_eq!(out.len(), 1200);
    assert!(out.windows(2).all(|w| w[0].confidence >= w[1].confidence));
    assert!(out.iter().all(|d| d.confidence > 500_000));
    assert_eq!(out[0].confidence, 600_999);
}
