use yolo_detect::detection::Detection;
use yolo_detect::geometry::BoundingBox;
use yolo_detect::ranking::sort_by_confidence;
use yolo_detect::suppression::nms;

fn tagged(tag: i64, confidence: i32) -> Detection {
    Detection { bbox: BoundingBox { x1: tag, y1: 0, x2: tag + 1, y2: 1 }, confidence }
}

fn square(x: i64, y: i64, side: i64, confidence: i32) -> Detection {
    Detection { bbox: BoundingBox { x1: x, y1: y, x2: x + side, y2: y + side }, confidence }
}

#[test]
fn sort_is_descending() {
    let sorted = sort_by_confidence(vec![tagged(0, 3), tagged(1, 9), tagged(2, -4), tagged(3, 5)]);
    let confidences: Vec<i32> = sorted.iter().map(|d| d.confidence).collect();
    assert_eq!(confidences, vec![9, 5, 3, -4]);
}

#[test]
fn sort_keeps_equal_confidences_in_order() {
    let sorted = sort_by_confidence(vec![
        tagged(0, 5),
        tagged(1, 7),
        tagged(2, 5),
        tagged(3, 7),
        tagged(4, 5),
    ]);
    let tags: Vec<i64> = sorted.iter().map(|d| d.bbox.x1).collect();
    assert_eq!(tags, vec![1, 3, 0, 2, 4]);
}

#[test]
fn sort_of_nothing_is_nothing() {
    assert!(sort_by_confidence(Vec::new()).is_empty());
}

#[test]
fn sort_keeps_every_detection() {
    let input = vec![tagged(0, 1), tagged(1, 1), tagged(2, 8), tagged(0, 1)];
    let sorted = sort_by_confidence(input.clone());
    assert_eq!(sorted.len(), input.len());
    for d in &input {
        let before = input.iter().filter(|x| *x == d).count();
        let after = sorted.iter().filter(|x| *x == d).count();
        assert_eq!(before, after);
    }
}

#[test]
fn nms_keeps_the_best_of_overlapping_boxes() {
    let kept =
        nms(vec![square(0, 0, 10, 90), square(1, 1, 10, 80), square(50, 50, 10, 70)], 450_000);
    assert_eq!(kept, vec![square(0, 0, 10, 90), square(50, 50, 10, 70)]);
}

#[test]
fn nms_compares_with_kept_boxes_only() {
    // The second box overlaps the first and is removed; the third overlaps
    // only the second and stays.
    let a = square(0, 0, 10, 90);
    let b = square(4, 0, 10, 80);
    let c = square(8, 0, 10, 70);
    assert_eq!(yolo_detect::geometry::iou(&a.bbox, &b.bbox), 428_571);
    assert_eq!(yolo_detect::geometry::iou(&a.bbox, &c.bbox), 111_111);
    let kept = nms(vec![a, b, c], 400_000);
    assert_eq!(kept, vec![a, c]);
}

#[test]
fn nms_threshold_is_strict() {
    // The inner box covers a quarter of the outer one: the ratio is 0.25.
    let a = square(0, 0, 4, 90);
    let b = square(1, 1, 2, 80);
    assert_eq!(nms(vec![a, b], 250_000), vec![a, b]);
    assert_eq!(nms(vec![a, b], 249_999), vec![a]);
}

#[test]
fn nms_compares_the_exact_ratio() {
    // The ratio is one third, which lies between 333,333 and 333,334
    // millionths.
    let a = square(0, 0, 4, 90);
    let b = square(2, 0, 4, 80);
    assert_eq!(yolo_detect::geometry::iou(&a.bbox, &b.bbox), 333_333);
    assert_eq!(nms(vec![a, b], 333_334), vec![a, b]);
    assert_eq!(nms(vec![a, b], 333_333), vec![a]);
}

#[test]
fn nms_removes_the_slightest_overlap_at_threshold_zero() {
    let a = square(0, 0, 2_000, 90);
    let b = square(1_999, 1_999, 2_000, 80);
    assert_eq!(yolo_detect::geometry::iou(&a.bbox, &b.bbox), 0);
    assert_eq!(nms(vec![a, b], 0), vec![a]);
    let c = square(2_000, 2_000, 2_000, 80);
    assert_eq!(nms(vec![a, c], 0), vec![a, c]);
}

#[test]
fn nms_twice_removes_nothing_more() {
    let input = vec![
        square(0, 0, 10, 90),
        square(1, 1, 10, 80),
        square(5, 5, 10, 75),
        square(50, 50, 10, 70),
        square(52, 50, 10, 60),
    ];
    let once = nms(input, 300_000);
    let twice = nms(once.clone(), 300_000);
    assert_eq!(once, twice);
}

#[test]
fn nms_of_nothing_is_nothing() {
    assert!(nms(Vec::new(), 450_000).is_empty());
}

#[test]
fn nms_with_negative_threshold_keeps_only_the_first() {
    let kept = nms(vec![square(0, 0, 1, 9), square(100, 100, 1, 8), square(200, 200, 1, 7)], -1);
    assert_eq!(kept, vec![square(0, 0, 1, 9)]);
}

#[test]
fn nms_with_full_threshold_keeps_identical_boxes() {
    let a = square(0, 0, 4, 9);
    assert_eq!(nms(vec![a, a, a], 1_000_000), vec![a, a, a]);
    assert_eq!(nms(vec![a, a, a], 999_999), vec![a]);
}
