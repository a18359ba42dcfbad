//! The decisions of one detection request.
//!
//! A request captures a frame, encodes it, runs the model and decodes what
//! the model returns. Capturing and running the model are done by whoever
//! drives the request; this module decides what follows each of them. A
//! failure at any stage ends the request: nothing is retried and no partial
//! result is given.

use crate::decoder::{decode, decoded, RawOutput};
use crate::detection::Detection;
use crate::encoder::{can_encode_to, encode, encodes, target_fits, EncodeError, InputTensor};
use crate::frame::Frame;
use crate::normalization::{Normalization, NormalizationView};
use vstd::prelude::*;

verus! {

/// Why a request failed.
#[derive(Debug, PartialEq, Eq)]
pub enum PipelineError {
    /// The frame source failed, with the text of its failure, or delivered a
    /// frame without pixels.
    Capture(String),
    /// The frame could not be encoded.
    Encode(EncodeError),
    /// The model could not be run or returned nothing usable, with the text
    /// of the failure.
    Inference(String),
}

/// Mathematical view of a failure.
pub enum PipelineErrorView {
    Capture(Seq<char>),
    Encode(EncodeError),
    Inference(Seq<char>),
}

impl View for PipelineError {
    type V = PipelineErrorView;

    open spec fn view(&self) -> PipelineErrorView {
        match self {
            PipelineError::Capture(text) => PipelineErrorView::Capture(text@),
            PipelineError::Encode(e) => PipelineErrorView::Encode(*e),
            PipelineError::Inference(text) => PipelineErrorView::Inference(text@),
        }
    }
}

/// The text that reports a frame without pixels.
pub open spec fn empty_capture_text() -> Seq<char> {
    "Failed to capture frame"@
}

/// The text by which each failure is reported: the text of the frame source
/// or of the model where they failed, and a fixed text for each failure of
/// the encoder.
pub open spec fn message_of(error: PipelineErrorView) -> Seq<char> {
    match error {
        PipelineErrorView::Capture(text) => text,
        PipelineErrorView::Encode(EncodeError::EmptyFrame) => "Cannot encode an empty frame"@,
        PipelineErrorView::Encode(EncodeError::UnsupportedFormat) => "Unsupported frame format"@,
        PipelineErrorView::Inference(text) => text,
    }
}

impl PipelineError {
    /// The text by which the failure is reported.
    pub fn message(&self) -> (text: String)
        ensures
            text@ == message_of(self@),
    {
        match self {
            PipelineError::Capture(text) => text.clone(),
            PipelineError::Encode(EncodeError::EmptyFrame) => "Cannot encode an empty frame"
                .to_owned(),
            PipelineError::Encode(EncodeError::UnsupportedFormat) => "Unsupported frame format"
                .to_owned(),
            PipelineError::Inference(text) => text.clone(),
        }
    }
}

/// Mathematical view of the settings of a pipeline.
pub struct SettingsView {
    pub height: usize,
    pub width: usize,
    pub normalization: NormalizationView,
    pub conf_threshold: int,
    pub iou_threshold: int,
}

/// The constants that tie a pipeline to its model: the input size, the
/// normalization, and the thresholds for confidence and for overlap (the
/// latter in millionths).
pub struct Settings {
    height: usize,
    width: usize,
    normalization: Normalization,
    conf_threshold: i32,
    iou_threshold: i32,
}

impl View for Settings {
    type V = SettingsView;

    closed spec fn view(&self) -> SettingsView {
        SettingsView {
            height: self.height,
            width: self.width,
            normalization: self.normalization@,
            conf_threshold: self.conf_threshold as int,
            iou_threshold: self.iou_threshold as int,
        }
    }
}

impl Settings {
    /// A tensor of the model's input size can always be allocated.
    #[verifier::type_invariant]
    pub open spec fn well_formed(&self) -> bool {
        target_fits(self@.height, self@.width)
    }

    /// Settings for a model that takes images of `height` rows and `width`
    /// columns, or `None` when a tensor of that size cannot be allocated.
    pub fn new(
        height: usize,
        width: usize,
        normalization: Normalization,
        conf_threshold: i32,
        iou_threshold: i32,
    ) -> (r: Option<Settings>)
        ensures
            r.is_some() <==> target_fits(height, width),
            r matches Some(s) ==> s@ == (SettingsView {
                height,
                width,
                normalization: normalization@,
                conf_threshold: conf_threshold as int,
                iou_threshold: iou_threshold as int,
            }),
    {
        if can_encode_to(height, width) {
            Some(Settings { height, width, normalization, conf_threshold, iou_threshold })
        } else {
            None
        }
    }

    /// Number of rows of the model's input.
    pub fn height(&self) -> (r: usize)
        ensures
            r == self@.height,
    {
        self.height
    }

    /// Number of columns of the model's input.
    pub fn width(&self) -> (r: usize)
        ensures
            r == self@.width,
    {
        self.width
    }

    /// The normalization applied to every sample.
    pub fn normalization(&self) -> (r: &Normalization)
        ensures
            r@ == self@.normalization,
    {
        &self.normalization
    }

    /// The confidence that a detection must exceed.
    pub fn conf_threshold(&self) -> (r: i32)
        ensures
            r == self@.conf_threshold,
    {
        self.conf_threshold
    }

    /// The overlap, in millionths, beyond which a box is suppressed.
    pub fn iou_threshold(&self) -> (r: i32)
        ensures
            r == self@.iou_threshold,
    {
        self.iou_threshold
    }
}

/// What a request answers.
#[derive(Debug, PartialEq)]
pub enum Response {
    /// The detections, highest confidence first, and their number.
    Success { num_faces: usize, detections: Vec<Detection> },
    /// The failure that ended the request.
    Failure { error: PipelineError },
}

/// Mathematical view of a response.
pub enum ResponseView {
    Success { num_faces: nat, detections: Seq<Detection> },
    Failure { error: PipelineErrorView },
}

impl View for Response {
    type V = ResponseView;

    open spec fn view(&self) -> ResponseView {
        match self {
            Response::Success { num_faces, detections } => ResponseView::Success {
                num_faces: *num_faces as nat,
                detections: detections@,
            },
            Response::Failure { error } => ResponseView::Failure { error: error@ },
        }
    }
}

/// Decides what follows the capture: the tensor to run the model on, or the
/// failure that ends the request.
///
/// A capture that failed is a capture failure that carries the text of the
/// frame source. A frame without pixels is a capture failure too. A frame
/// that cannot be encoded is an encoding failure.
pub fn prepare(settings: &Settings, captured: Result<Frame, String>) -> (r: Result<
    InputTensor,
    PipelineError,
>)
    ensures
        captured matches Err(text) ==> (r matches Err(e) && e@ == PipelineErrorView::Capture(
            text@,
        )),
        (captured matches Ok(f) && f@.is_empty()) ==> (r matches Err(e) && e@
            == PipelineErrorView::Capture(empty_capture_text())),
        (captured matches Ok(f) && !f@.is_empty() && f@.channels != 3) ==> (r matches Err(e)
            && e@ == PipelineErrorView::Encode(EncodeError::UnsupportedFormat)),
        (captured matches Ok(f) && !f@.is_empty() && f@.channels == 3) <==> r is Ok,
        r matches Ok(t) ==> captured matches Ok(f) && encodes(
            t@,
            f@,
            settings@.height,
            settings@.width,
            settings@.normalization,
        ),
{
    let frame = match captured {
        Ok(f) => f,
        Err(text) => {
            return Err(PipelineError::Capture(text));
        },
    };
    if frame.is_empty() {
        return Err(PipelineError::Capture("Failed to capture frame".to_owned()));
    }
    proof {
        use_type_invariant(settings);
    }
    match encode(&frame, settings.height(), settings.width(), settings.normalization()) {
        Ok(t) => Ok(t),
        Err(e) => Err(PipelineError::Encode(e)),
    }
}

/// Decides what follows the model run: the detections decoded from the raw
/// output, or an inference failure that carries the text of the model's
/// failure.
///
/// An output of a shape that cannot be decoded is no failure: it yields no
/// detections.
pub fn conclude(settings: &Settings, output: Result<RawOutput, String>) -> (r: Result<
    Vec<Detection>,
    PipelineError,
>)
    ensures
        output matches Err(text) ==> (r matches Err(e) && e@ == PipelineErrorView::Inference(
            text@,
        )),
        output is Ok <==> r is Ok,
        r matches Ok(detections) ==> output matches Ok(t) && detections@ == decoded(
            t@,
            settings@.conf_threshold,
            settings@.iou_threshold,
        ),
{
    match output {
        Ok(t) => Ok(decode(&t, settings.conf_threshold(), settings.iou_threshold())),
        Err(text) => Err(PipelineError::Inference(text)),
    }
}

/// Turns the outcome of a request into its response: the detections with
/// their number, or the failure.
pub fn respond(outcome: Result<Vec<Detection>, PipelineError>) -> (r: Response)
    ensures
        r@ == match outcome {
            Ok(detections) => ResponseView::Success {
                num_faces: detections@.len(),
                detections: detections@,
            },
            Err(error) => ResponseView::Failure { error: error@ },
        },
{
    match outcome {
        Ok(detections) => Response::Success { num_faces: detections.len(), detections },
        Err(error) => Response::Failure { error },
    }
}

} // verus!
