use yolo_detect::detection::Detection;
use yolo_detect::encoder::{can_encode_to, EncodeError};
use yolo_detect::frame::Frame;
use yolo_detect::geometry::BoundingBox;
use yolo_detect::normalization::Normalization;
use yolo_detect::pipeline::{conclude, prepare, respond, PipelineError, Response, Settings};
use yolo_detect::tensor::Tensor;

fn settings(height: usize, width: usize) -> Settings {
    Settings::new(height, width, Normalization::identity(), 500_000, 450_000)
        .expect("a tensor of this size can be allocated")
}

fn square(cx: i64, cy: i64, half: i64, confidence: i32) -> Detection {
    Detection {
        bbox: BoundingBox { x1: cx - half, y1: cy - half, x2: cx + half, y2: cy + half },
        confidence,
    }
}

#[test]
fn settings_report_what_they_were_built_from() {
    let s = Settings::new(640, 480, Normalization::new(2, 3).unwrap(), 7, 9).unwrap();
    assert_eq!((s.height(), s.width()), (640, 480));
    assert_eq!((s.conf_threshold(), s.iou_threshold()), (7, 9));
    assert_eq!((s.normalization().scale(), s.normalization().offset()), (2, 3));
}

#[test]
fn settings_reject_a_size_too_large() {
    assert!(Settings::new(usize::MAX, 2, Normalization::identity(), 0, 0).is_none());
    assert!(Settings::new(usize::MAX / 2, 1, Normalization::identity(), 0, 0).is_none());
    assert!(Settings::new(0, usize::MAX, Normalization::identity(), 0, 0).is_none());
    assert!(Settings::new(0, 0, Normalization::identity(), 0, 0).is_some());
}

#[test]
fn size_limit_is_a_third_of_the_largest_signed_size() {
    let limit = isize::MAX as usize / 3;
    assert!(can_encode_to(limit, 1));
    assert!(can_encode_to(1, limit));
    assert!(can_encode_to(0, limit));
    assert!(!can_encode_to(limit + 1, 1));
    assert!(!can_encode_to(0, limit + 1));
    assert!(can_encode_to(640, 640));
}

#[test]
fn failed_capture_ends_the_request_with_its_text() {
    assert_eq!(
        prepare(&settings(4, 4), Err("camera unplugged".to_string())).err(),
        Some(PipelineError::Capture("camera unplugged".to_string()))
    );
}

#[test]
fn empty_frame_is_a_capture_failure() {
    let frame = Frame::new(0, 0, 3, vec![]).unwrap();
    assert_eq!(
        prepare(&settings(4, 4), Ok(frame)).err(),
        Some(PipelineError::Capture("Failed to capture frame".to_string()))
    );
}

#[test]
fn frame_of_wrong_format_is_an_encoding_failure() {
    let frame = Frame::new(1, 1, 1, vec![9]).unwrap();
    assert_eq!(
        prepare(&settings(4, 4), Ok(frame)).err(),
        Some(PipelineError::Encode(EncodeError::UnsupportedFormat))
    );
}

#[test]
fn captured_frame_is_encoded() {
    let frame = Frame::new(1, 2, 3, vec![10, 20, 30, 110, 120, 130]).unwrap();
    let tensor = prepare(&settings(1, 4), Ok(frame)).unwrap();
    assert_eq!(tensor.dims(), vec![1, 3, 1, 4]);
    assert_eq!(tensor.to_vec(), vec![30, 55, 105, 130, 20, 45, 95, 120, 10, 35, 85, 110]);
}

#[test]
fn failed_model_run_ends_the_request_with_its_text() {
    assert_eq!(
        conclude(&settings(4, 4), Err("no output named output0".to_string())).err(),
        Some(PipelineError::Inference("no output named output0".to_string()))
    );
}

#[test]
fn output_is_decoded_with_the_thresholds_of_the_settings() {
    let data: Vec<i32> = vec![
        10_000, 10_000, 100_000, 10_000, 10_000, 100_000, 4_000, 4_000, 4_000, 4_000, 4_000,
        4_000, 900_000, 800_000, 700_000,
    ];
    let output = Tensor::from_shape_vec(vec![1, 5, 3], data.clone()).unwrap();
    let found = conclude(&settings(4, 4), Ok(output)).unwrap();
    assert_eq!(
        found,
        vec![square(10_000, 10_000, 2_000, 900_000), square(100_000, 100_000, 2_000, 700_000)]
    );
    let strict = Settings::new(4, 4, Normalization::identity(), 950_000, 450_000).unwrap();
    let output = Tensor::from_shape_vec(vec![1, 5, 3], data).unwrap();
    assert!(conclude(&strict, Ok(output)).unwrap().is_empty());
}

#[test]
fn output_of_wrong_shape_is_no_failure() {
    let output = Tensor::from_shape_vec(vec![5, 3], vec![0; 15]).unwrap();
    assert_eq!(conclude(&settings(4, 4), Ok(output)), Ok(vec![]));
}

#[test]
fn response_counts_the_detections() {
    let found = vec![square(5, 5, 2, 900_000), square(50, 50, 2, 700_000)];
    assert_eq!(
        respond(Ok(found.clone())),
        Response::Success { num_faces: 2, detections: found }
    );
    assert_eq!(respond(Ok(vec![])), Response::Success { num_faces: 0, detections: vec![] });
}

#[test]
fn response_carries_the_failure() {
    assert_eq!(
        respond(Err(PipelineError::Inference("engine stopped".to_string()))),
        Response::Failure { error: PipelineError::Inference("engine stopped".to_string()) }
    );
    assert_eq!(
        respond(Err(PipelineError::Encode(EncodeError::EmptyFrame))),
        Response::Failure { error: PipelineError::Encode(EncodeError::EmptyFrame) }
    );
}

#[test]
fn every_failure_has_its_message() {
    assert_eq!(PipelineError::Capture("read timed out".to_string()).message(), "read timed out");
    assert_eq!(PipelineError::Inference("bad model".to_string()).message(), "bad model");
    assert_eq!(
        PipelineError::Encode(EncodeError::EmptyFrame).message(),
        "Cannot encode an empty frame"
    );
    assert_eq!(
        PipelineError::Encode(EncodeError::UnsupportedFormat).message(),
        "Unsupported frame format"
    );
}

#[test]
fn failed_request_reports_the_text_of_its_cause() {
    let prepared = prepare(&settings(4, 4), Err("device busy".to_string()));
    let response = respond(prepared.map(|_| vec![]));
    match response {
        Response::Failure { error } => assert_eq!(error.message(), "device busy"),
        Response::Success { .. } => panic!("a failed capture cannot succeed"),
    }
}
