//! Decoding a model's raw output into a clean list of detections.
//!
//! The raw output is a tensor of shape `[batch, features, predictions]`.
//! Each prediction packs a box as centre, width and height in feature rows
//! 0 to 3, followed by one score per class. The confidence of a prediction
//! is the largest of its scores. Decoding keeps the predictions whose
//! confidence is above a confidence threshold, ranks them by confidence, and
//! removes every box whose intersection-over-union with a better ranked,
//! kept box exceeds an overlap threshold.
//!
//! Scores and thresholds are fixed-point numbers; the overlap threshold is
//! in millionths (see [`UNIT`](crate::fixed::UNIT)) and is compared with the
//! exact ratio of the areas.

use crate::detection::{
    above,
    boxes_in_range,
    descending,
    drawn_from,
    lemma_drawn_from_chain,
    Detection,
};
use crate::fixed::max_int;
use crate::geometry::{overlap_exceeds, BoundingBox};
use crate::ranking::{
    lemma_descending_filter_prefix,
    lemma_ranked_descending,
    lemma_ranked_filter,
    lemma_ranked_in_range,
    lemma_ranked_permutation,
    ranked,
    sort_by_confidence,
};
use crate::sequences::{
    lemma_filter_empty,
    lemma_filter_members,
    lemma_filter_push,
    lemma_filter_submultiset,
    lemma_filter_twice,
};
use crate::suppression::{
    free_of_overlap,
    lemma_suppressed_descending,
    lemma_suppressed_drawn_from,
    lemma_suppressed_free_of_overlap,
    lemma_suppressed_covers,
    lemma_suppressed_prefix,
    lemma_suppressed_submultiset,
    nms,
    suppressed,
};
use crate::tensor::{in_bounds, lemma_flat_index3, Tensor, TensorView};
use vstd::prelude::*;

verus! {

/// Number of feature rows that describe the box of a prediction.
pub const BOX_FEATURES: usize = 4;

/// The raw output of a model: a tensor of shape
/// `[batch, features, predictions]`.
pub type RawOutput = Tensor;

/// A shape that can be decoded: three axes, at least one batch entry and at
/// least the four box rows.
pub open spec fn decodable(shape: Seq<usize>) -> bool {
    shape.len() == 3 && shape[0] >= 1 && shape[1] >= BOX_FEATURES
}

/// The raw value of `feature` for `prediction` in the first batch entry.
pub open spec fn raw_at(t: TensorView, feature: int, prediction: int) -> int {
    t.elems[feature * t.shape[2] + prediction] as int
}

/// The largest of the scores in feature rows 4 up to, but not including,
/// `upto`. Where there is no such row it is zero.
pub open spec fn max_score(t: TensorView, prediction: int, upto: int) -> int
    decreases upto,
{
    if upto <= BOX_FEATURES {
        0
    } else if upto == BOX_FEATURES + 1 {
        raw_at(t, BOX_FEATURES as int, prediction)
    } else {
        max_int(max_score(t, prediction, upto - 1), raw_at(t, upto - 1, prediction))
    }
}

/// The confidence of a prediction: the largest of its class scores, or zero
/// for a tensor without score rows.
pub open spec fn confidence_of(t: TensorView, prediction: int) -> int {
    max_score(t, prediction, t.shape[1] as int)
}

/// Corner form of a box given by its centre and size: half the size is taken
/// off and added to the centre, halves rounded down.
pub open spec fn corners(cx: int, cy: int, w: int, h: int) -> BoundingBox {
    BoundingBox {
        x1: (cx - w / 2) as i64,
        y1: (cy - h / 2) as i64,
        x2: (cx + w / 2) as i64,
        y2: (cy + h / 2) as i64,
    }
}

/// The detection that a prediction stands for.
pub open spec fn prediction_at(t: TensorView, prediction: int) -> Detection {
    Detection {
        bbox: corners(
            raw_at(t, 0, prediction),
            raw_at(t, 1, prediction),
            raw_at(t, 2, prediction),
            raw_at(t, 3, prediction),
        ),
        confidence: confidence_of(t, prediction) as i32,
    }
}

/// All predictions of the first batch entry, in the order of the tensor.
pub open spec fn predictions(t: TensorView) -> Seq<Detection> {
    Seq::new(t.shape[2] as nat, |p: int| prediction_at(t, p))
}

/// The predictions that pass the confidence threshold, in the order of the
/// tensor.
pub open spec fn candidates(t: TensorView, conf_threshold: int) -> Seq<Detection> {
    predictions(t).filter(above(conf_threshold))
}

/// The best score of a prediction fits in `i32`.
pub proof fn lemma_max_score_range(t: TensorView, prediction: int, upto: int)
    ensures
        i32::MIN <= max_score(t, prediction, upto) <= i32::MAX,
    decreases upto,
{
    if upto > BOX_FEATURES + 1 {
        lemma_max_score_range(t, prediction, upto - 1);
    }
}

/// The confidence of a prediction is the maximum of its class scores: no
/// score is above it, and where there is a score row one of the scores
/// equals it.
pub proof fn lemma_max_score_is_maximum(t: TensorView, prediction: int, upto: int)
    requires
        upto > BOX_FEATURES,
    ensures
        forall|j: int|
            BOX_FEATURES <= j < upto ==> #[trigger] raw_at(t, j, prediction) <= max_score(
                t,
                prediction,
                upto,
            ),
        exists|j: int|
            BOX_FEATURES <= j < upto && #[trigger] raw_at(t, j, prediction) == max_score(
                t,
                prediction,
                upto,
            ),
    decreases upto,
{
    if upto == BOX_FEATURES + 1 {
        assert(raw_at(t, BOX_FEATURES as int, prediction) == max_score(t, prediction, upto));
    } else {
        lemma_max_score_is_maximum(t, prediction, upto - 1);
        let before = max_score(t, prediction, upto - 1);
        let last = raw_at(t, upto - 1, prediction);
        if last >= before {
            assert(raw_at(t, upto - 1, prediction) == max_score(t, prediction, upto));
        } else {
            let j = choose|j: int|
                BOX_FEATURES <= j < upto - 1 && #[trigger] raw_at(t, j, prediction) == before;
            assert(raw_at(t, j, prediction) == max_score(t, prediction, upto));
        }
    }
}

/// A prediction's detection holds exactly the largest score and the corner
/// form of the box: nothing is lost to the width of the integers.
pub proof fn lemma_prediction_exact(t: TensorView, prediction: int)
    ensures
        prediction_at(t, prediction).confidence == confidence_of(t, prediction),
        prediction_at(t, prediction).bbox.x1 == raw_at(t, 0, prediction) - raw_at(
            t,
            2,
            prediction,
        ) / 2,
        prediction_at(t, prediction).bbox.y1 == raw_at(t, 1, prediction) - raw_at(
            t,
            3,
            prediction,
        ) / 2,
        prediction_at(t, prediction).bbox.x2 == raw_at(t, 0, prediction) + raw_at(
            t,
            2,
            prediction,
        ) / 2,
        prediction_at(t, prediction).bbox.y2 == raw_at(t, 1, prediction) + raw_at(
            t,
            3,
            prediction,
        ) / 2,
        prediction_at(t, prediction).bbox.in_range(),
{
    lemma_max_score_range(t, prediction, t.shape[1] as int);
}

/// Half of `v`, rounded down.
fn half(v: i32) -> (r: i64)
    ensures
        r == (v as int) / 2,
{
    let wide: i64 = v as i64;
    if wide >= 0 {
        wide / 2
    } else {
        -((1 - wide) / 2)
    }
}

/// Converts a box from centre and size to corner form.
pub fn to_corners(cx: i32, cy: i32, w: i32, h: i32) -> (b: BoundingBox)
    ensures
        b == corners(cx as int, cy as int, w as int, h as int),
        b.in_range(),
{
    let half_w = half(w);
    let half_h = half(h);
    BoundingBox {
        x1: cx as i64 - half_w,
        y1: cy as i64 - half_h,
        x2: cx as i64 + half_w,
        y2: cy as i64 + half_h,
    }
}

/// Reads one raw value of the first batch entry.
fn raw_value(output: &RawOutput, feature: usize, prediction: usize) -> (v: i32)
    requires
        decodable(output@.shape),
        feature < output@.shape[1],
        prediction < output@.shape[2],
    ensures
        v == raw_at(output@, feature as int, prediction as int),
{
    let index: [usize; 3] = [0, feature, prediction];
    let slice = index.as_slice();
    proof {
        assert(slice@ == index@);
        assert(index@.len() == 3);
        assert(index@[0] == 0 && index@[1] == feature && index@[2] == prediction);
        lemma_flat_index3(output@.shape, slice@);
        assert(in_bounds(output@.shape, slice@));
        assert((0 * output@.shape[1] + feature) * output@.shape[2] + prediction == feature
            * output@.shape[2] + prediction);
    }
    match output.get(slice) {
        Some(v) => v,
        None => 0,
    }
}

/// The confidence of a prediction: the largest of its class scores, or zero
/// for a tensor without score rows.
pub fn confidence(output: &RawOutput, prediction: usize) -> (c: i32)
    requires
        decodable(output@.shape),
        prediction < output@.shape[2],
    ensures
        c == confidence_of(output@, prediction as int),
{
    let dims = output.dims();
    let features = dims[1];
    if features <= BOX_FEATURES {
        return 0;
    }
    let mut best: i32 = raw_value(output, BOX_FEATURES, prediction);
    let mut j: usize = BOX_FEATURES + 1;
    while j < features
        invariant
            decodable(output@.shape),
            prediction < output@.shape[2],
            features == output@.shape[1],
            BOX_FEATURES < j <= features,
            best == max_score(output@, prediction as int, j as int),
        decreases features - j,
    {
        let score = raw_value(output, j, prediction);
        if score > best {
            best = score;
        }
        j += 1;
    }
    best
}

/// The detection that a prediction stands for.
pub fn read_prediction(output: &RawOutput, prediction: usize) -> (d: Detection)
    requires
        decodable(output@.shape),
        prediction < output@.shape[2],
    ensures
        d == prediction_at(output@, prediction as int),
        d.bbox.in_range(),
{
    let cx = raw_value(output, 0, prediction);
    let cy = raw_value(output, 1, prediction);
    let w = raw_value(output, 2, prediction);
    let h = raw_value(output, 3, prediction);
    Detection { bbox: to_corners(cx, cy, w, h), confidence: confidence(output, prediction) }
}

/// Collects the predictions whose confidence is strictly above
/// `conf_threshold`, in the order of the tensor.
pub fn collect_candidates(output: &RawOutput, conf_threshold: i32) -> (found: Vec<Detection>)
    requires
        decodable(output@.shape),
    ensures
        found@ == candidates(output@, conf_threshold as int),
        boxes_in_range(found@),
{
    let dims = output.dims();
    let count = dims[2];
    let mut found: Vec<Detection> = Vec::new();
    let mut p: usize = 0;
    proof {
        lemma_filter_empty(above(conf_threshold as int));
        assert(predictions(output@).take(0) =~= Seq::<Detection>::empty());
    }
    while p < count
        invariant
            decodable(output@.shape),
            count == output@.shape[2],
            0 <= p <= count,
            found@ == predictions(output@).take(p as int).filter(above(conf_threshold as int)),
            boxes_in_range(found@),
        decreases count - p,
    {
        let d = read_prediction(output, p);
        proof {
            let all = predictions(output@);
            assert(all.take(p as int + 1) =~= all.take(p as int).push(d));
            lemma_filter_push(all.take(p as int), above(conf_threshold as int), d);
        }
        if d.confidence > conf_threshold {
            found.push(d);
        }
        p += 1;
    }
    proof {
        assert(predictions(output@).take(count as int) =~= predictions(output@));
    }
    found
}

/// Whether the tensor has a shape that can be decoded. A tensor of another
/// shape decodes to nothing, which a caller may want to report.
pub fn can_decode(output: &RawOutput) -> (r: bool)
    ensures
        r == decodable(output@.shape),
{
    let dims = output.dims();
    dims.len() == 3 && dims[0] >= 1 && dims[1] >= BOX_FEATURES
}

/// What decoding a raw output yields: nothing for a shape that cannot be
/// decoded, and otherwise the candidates above the confidence threshold,
/// ranked by descending confidence and freed of overlapping boxes.
pub open spec fn decoded(t: TensorView, conf_threshold: int, iou_threshold: int) -> Seq<
    Detection,
> {
    if decodable(t.shape) {
        suppressed(ranked(candidates(t, conf_threshold)), iou_threshold)
    } else {
        Seq::empty()
    }
}

/// Decodes a raw model output into detections.
///
/// A shape that cannot be decoded, such as one of fewer than three axes,
/// yields an empty list: that is a valid result, not a failure. Otherwise
/// the predictions whose confidence is strictly above `conf_threshold` are
/// ranked by descending confidence and freed of boxes that overlap a better
/// ranked one by more than `iou_threshold` (in millionths). Boxes are in the
/// coordinates of the model's input, as the raw output gives them.
pub fn decode(output: &RawOutput, conf_threshold: i32, iou_threshold: i32) -> (detections: Vec<
    Detection,
>)
    ensures
        detections@ == decoded(output@, conf_threshold as int, iou_threshold as int),
        !decodable(output@.shape) ==> detections@.len() == 0,
        output@.shape.len() < 3 ==> detections@.len() == 0,
        descending(detections@),
        free_of_overlap(detections@, iou_threshold as int),
        boxes_in_range(detections@),
        drawn_from(detections@, predictions(output@)),
        forall|i: int|
            0 <= i < detections@.len() ==> (#[trigger] detections@[i]).confidence
                > conf_threshold,
{
    proof {
        lemma_decoded_descending(output@, conf_threshold as int, iou_threshold as int);
        lemma_decoded_free_of_overlap(output@, conf_threshold as int, iou_threshold as int);
        lemma_decoded_from_candidates(output@, conf_threshold as int, iou_threshold as int);
        lemma_decoded_in_range(output@, conf_threshold as int, iou_threshold as int);
    }
    if !can_decode(output) {
        return Vec::new();
    }
    let found = collect_candidates(output, conf_threshold);
    let sorted = sort_by_confidence(found);
    proof {
        lemma_ranked_in_range(found@);
    }
    nms(sorted, iou_threshold)
}

/// Decoded detections come in descending order of confidence.
pub proof fn lemma_decoded_descending(t: TensorView, conf_threshold: int, iou_threshold: int)
    ensures
        descending(decoded(t, conf_threshold, iou_threshold)),
{
    if decodable(t.shape) {
        lemma_ranked_descending(candidates(t, conf_threshold));
        lemma_suppressed_descending(ranked(candidates(t, conf_threshold)), iou_threshold);
    }
}

/// No two decoded detections overlap by more than the threshold, so running
/// the suppression stage on a decoded list removes nothing.
pub proof fn lemma_decoded_free_of_overlap(t: TensorView, conf_threshold: int, iou_threshold: int)
    ensures
        free_of_overlap(decoded(t, conf_threshold, iou_threshold), iou_threshold),
        suppressed(decoded(t, conf_threshold, iou_threshold), iou_threshold) == decoded(
            t,
            conf_threshold,
            iou_threshold,
        ),
{
    let out = decoded(t, conf_threshold, iou_threshold);
    if decodable(t.shape) {
        lemma_suppressed_free_of_overlap(ranked(candidates(t, conf_threshold)), iou_threshold);
    }
    crate::suppression::lemma_suppressed_fixed_point(out, iou_threshold);
}

/// Every decoded detection is one of the predictions of the tensor, with the
/// box and the confidence of that prediction, and its confidence is
/// strictly above the confidence threshold.
pub proof fn lemma_decoded_from_candidates(t: TensorView, conf_threshold: int, iou_threshold: int)
    ensures
        drawn_from(decoded(t, conf_threshold, iou_threshold), predictions(t)),
        decoded(t, conf_threshold, iou_threshold).len() <= predictions(t).len(),
        forall|i: int|
            0 <= i < decoded(t, conf_threshold, iou_threshold).len() ==> (#[trigger] decoded(
                t,
                conf_threshold,
                iou_threshold,
            )[i]).confidence > conf_threshold,
{
    let out = decoded(t, conf_threshold, iou_threshold);
    if decodable(t.shape) {
        let found = candidates(t, conf_threshold);
        lemma_filter_members(predictions(t), above(conf_threshold));
        lemma_ranked_permutation(found);
        lemma_suppressed_drawn_from(ranked(found), iou_threshold);
        lemma_drawn_from_chain(out, ranked(found), found);
        assert(drawn_from(found, predictions(t)));
        lemma_drawn_from_chain(out, found, predictions(t));
        assert forall|i: int| 0 <= i < out.len() implies (#[trigger] out[i]).confidence
            > conf_threshold by {
            assert(found.contains(out[i]));
            let k = choose|k: int| 0 <= k < found.len() && found[k] == out[i];
            assert(above(conf_threshold)(found[k]));
        }
    }
}

/// No detection is invented: each decoded detection stands for a prediction
/// of its own, so that a detection occurs among the decoded ones no more
/// often than among the predictions.
pub proof fn lemma_decoded_submultiset(t: TensorView, conf_threshold: int, iou_threshold: int)
    ensures
        decoded(t, conf_threshold, iou_threshold).to_multiset().subset_of(
            predictions(t).to_multiset(),
        ),
{
    broadcast use vstd::multiset::group_multiset_axioms;

    let out = decoded(t, conf_threshold, iou_threshold);
    if decodable(t.shape) {
        let found = candidates(t, conf_threshold);
        lemma_filter_submultiset(predictions(t), above(conf_threshold));
        lemma_ranked_permutation(found);
        lemma_suppressed_submultiset(ranked(found), iou_threshold);
        assert forall|v: Detection| out.to_multiset().count(v) <= predictions(
            t,
        ).to_multiset().count(v) by {
            assert(out.to_multiset().count(v) <= ranked(found).to_multiset().count(v));
            assert(found.to_multiset().count(v) <= predictions(t).to_multiset().count(v));
        }
    } else {
        assert forall|v: Detection| out.to_multiset().count(v) <= predictions(
            t,
        ).to_multiset().count(v) by {
            vstd::seq_lib::to_multiset_contains(out, v);
        }
    }
}

/// The boxes of decoded detections have coordinates for which areas can be
/// computed, so the suppression stage can be run on a decoded list.
pub proof fn lemma_decoded_in_range(t: TensorView, conf_threshold: int, iou_threshold: int)
    ensures
        boxes_in_range(decoded(t, conf_threshold, iou_threshold)),
{
    let out = decoded(t, conf_threshold, iou_threshold);
    lemma_decoded_from_candidates(t, conf_threshold, iou_threshold);
    assert forall|i: int| 0 <= i < out.len() implies (#[trigger] out[i]).bbox.in_range() by {
        assert(predictions(t).contains(out[i]));
        let p = choose|p: int| 0 <= p < predictions(t).len() && predictions(t)[p] == out[i];
        assert(out[i] == prediction_at(t, p));
    }
}

/// Nothing is dropped without cause: a prediction whose confidence is above
/// the threshold is among the decoded detections, or a decoded detection of
/// at least its confidence overlaps it by more than the overlap threshold.
pub proof fn lemma_decoded_covers(
    t: TensorView,
    conf_threshold: int,
    iou_threshold: int,
    prediction: int,
)
    requires
        decodable(t.shape),
        0 <= prediction < t.shape[2],
        prediction_at(t, prediction).confidence > conf_threshold,
    ensures
        decoded(t, conf_threshold, iou_threshold).contains(prediction_at(t, prediction))
            || exists|k: int|
            0 <= k < decoded(t, conf_threshold, iou_threshold).len() && (#[trigger] decoded(
                t,
                conf_threshold,
                iou_threshold,
            )[k]).confidence >= prediction_at(t, prediction).confidence && overlap_exceeds(
                decoded(t, conf_threshold, iou_threshold)[k].bbox,
                prediction_at(t, prediction).bbox,
                iou_threshold,
            ),
{
    let d = prediction_at(t, prediction);
    let all = predictions(t);
    let found = candidates(t, conf_threshold);
    assert(all[prediction] == d);
    assert(above(conf_threshold)(all[prediction]));
    all.lemma_filter_contains(above(conf_threshold), prediction);
    lemma_ranked_permutation(found);
    let n = choose|n: int| 0 <= n < found.len() && found[n] == d;
    assert(ranked(found).contains(found[n]));
    lemma_ranked_descending(found);
    lemma_suppressed_covers(ranked(found), iou_threshold, d);
}

/// Where some prediction is above the confidence threshold, the first
/// decoded detection carries the largest confidence of all predictions.
pub proof fn lemma_decoded_first_is_best(
    t: TensorView,
    conf_threshold: int,
    iou_threshold: int,
    prediction: int,
)
    requires
        decodable(t.shape),
        0 <= prediction < t.shape[2],
        prediction_at(t, prediction).confidence > conf_threshold,
    ensures
        decoded(t, conf_threshold, iou_threshold).len() > 0,
        forall|p: int|
            0 <= p < t.shape[2] ==> (#[trigger] prediction_at(t, p)).confidence <= decoded(
                t,
                conf_threshold,
                iou_threshold,
            )[0].confidence,
{
    let all = predictions(t);
    let found = candidates(t, conf_threshold);
    let order = ranked(found);
    let out = decoded(t, conf_threshold, iou_threshold);
    assert(all[prediction] == prediction_at(t, prediction));
    assert(above(conf_threshold)(all[prediction]));
    all.lemma_filter_contains(above(conf_threshold), prediction);
    lemma_ranked_permutation(found);
    lemma_ranked_descending(found);
    lemma_suppressed_drawn_from(order, iou_threshold);
    assert(found.len() > 0);
    assert(out[0] == order[0]);
    assert(found.contains(order[0]));
    lemma_filter_members(all, above(conf_threshold));
    let first = choose|k: int| 0 <= k < found.len() && found[k] == order[0];
    assert(above(conf_threshold)(found[first]));
    assert forall|p: int| 0 <= p < t.shape[2] implies (#[trigger] prediction_at(t, p)).confidence
        <= out[0].confidence by {
        let d = prediction_at(t, p);
        assert(all[p] == d);
        if d.confidence > conf_threshold {
            assert(above(conf_threshold)(all[p]));
            all.lemma_filter_contains(above(conf_threshold), p);
            let n = choose|n: int| 0 <= n < found.len() && found[n] == d;
            assert(order.contains(found[n]));
            let m = choose|m: int| 0 <= m < order.len() && order[m] == d;
            if m > 0 {
                assert(order[0].confidence >= order[m].confidence);
            }
        }
    }
}

/// Raising the confidence threshold never adds a detection: what is decoded
/// with the higher threshold is the leading part of what is decoded with the
/// lower one.
pub proof fn lemma_threshold_monotone(t: TensorView, low: int, high: int, iou_threshold: int)
    requires
        low <= high,
    ensures
        decoded(t, high, iou_threshold).len() <= decoded(t, low, iou_threshold).len(),
        decoded(t, high, iou_threshold) == decoded(t, low, iou_threshold).take(
            decoded(t, high, iou_threshold).len() as int,
        ),
{
    if decodable(t.shape) {
        let all = predictions(t);
        let found_low = candidates(t, low);
        let found_high = candidates(t, high);
        assert forall|d: Detection| #[trigger] above(high)(d) implies above(low)(d) by {}
        lemma_filter_twice(all, above(low), above(high));
        assert(found_high == found_low.filter(above(high)));
        lemma_ranked_filter(found_low, above(high));
        let ranked_low = ranked(found_low);
        lemma_ranked_descending(found_low);
        lemma_descending_filter_prefix(ranked_low, high);
        let k = ranked_low.filter(above(high)).len() as int;
        assert(ranked(found_high) == ranked_low.take(k));
        lemma_suppressed_prefix(ranked_low, k, iou_threshold);
    } else {
        assert(decoded(t, low, iou_threshold).take(0) =~= Seq::<Detection>::empty());
    }
}

} // verus!
