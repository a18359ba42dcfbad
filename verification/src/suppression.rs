//! Non-maximum suppression: removing boxes that overlap a better ranked one.

use crate::detection::{boxes_in_range, descending, drawn_from, Detection};
use crate::geometry::{exceeds_overlap, overlap_exceeds, BoundingBox};
use crate::sequences::{
    lemma_filter_empty,
    lemma_filter_keeps_all,
    lemma_filter_members,
    lemma_filter_prefix,
    lemma_filter_push,
    lemma_filter_submultiset,
    lemma_prepend_multiset,
};
use vstd::prelude::*;

verus! {

/// The detections whose intersection-over-union with `best` does not exceed
/// `iou_threshold` millionths, compared exactly.
pub open spec fn clear_of(best: BoundingBox, iou_threshold: int) -> spec_fn(Detection) -> bool {
    |d: Detection| !overlap_exceeds(best, d.bbox, iou_threshold)
}

/// Non-maximum suppression of a ranked list: the first detection is kept,
/// every later one that overlaps it by more than `iou_threshold` is removed,
/// and the same is done with what remains.
pub open spec fn suppressed(s: Seq<Detection>, iou_threshold: int) -> Seq<Detection>
    decreases s.len(),
    via suppressed_decreases
{
    if s.len() == 0 {
        Seq::empty()
    } else {
        seq![s[0]] + suppressed(
            s.drop_first().filter(clear_of(s[0].bbox, iou_threshold)),
            iou_threshold,
        )
    }
}

#[via_fn]
proof fn suppressed_decreases(s: Seq<Detection>, iou_threshold: int) {
    if s.len() > 0 {
        lemma_filter_members(s.drop_first(), clear_of(s[0].bbox, iou_threshold));
    }
}

/// No two detections have an intersection-over-union that exceeds
/// `iou_threshold` millionths, compared exactly.
pub open spec fn free_of_overlap(s: Seq<Detection>, iou_threshold: int) -> bool {
    forall|i: int, j: int|
        0 <= i < j < s.len() ==> !overlap_exceeds(s[i].bbox, s[j].bbox, iou_threshold)
}

/// What is left of `s` once its first detection has been kept: the later
/// detections that do not overlap it too much.
pub open spec fn remainder(s: Seq<Detection>, iou_threshold: int) -> Seq<Detection> {
    s.drop_first().filter(clear_of(s[0].bbox, iou_threshold))
}

/// The remainder is shorter than the list, is drawn from it, and none of its
/// detections overlaps the first detection too much.
pub proof fn lemma_remainder(s: Seq<Detection>, iou_threshold: int)
    requires
        s.len() > 0,
    ensures
        remainder(s, iou_threshold).len() < s.len(),
        drawn_from(remainder(s, iou_threshold), s),
        forall|i: int|
            0 <= i < remainder(s, iou_threshold).len() ==> !overlap_exceeds(
                s[0].bbox,
                (#[trigger] remainder(s, iou_threshold)[i]).bbox,
                iou_threshold,
            ),
{
    let rest = s.drop_first();
    let pred = clear_of(s[0].bbox, iou_threshold);
    let kept = rest.filter(pred);
    lemma_filter_members(rest, pred);
    assert forall|i: int| 0 <= i < kept.len() implies s.contains(#[trigger] kept[i]) by {
        assert(rest.contains(kept[i]));
        let k = choose|k: int| 0 <= k < rest.len() && rest[k] == kept[i];
        assert(s[k + 1] == kept[i]);
    }
    assert forall|i: int| 0 <= i < kept.len() implies !overlap_exceeds(
        s[0].bbox,
        (#[trigger] kept[i]).bbox,
        iou_threshold,
    ) by {
        assert(pred(kept[i]));
    }
}

/// Suppression only removes: what it returns is drawn from its input and
/// starts with the input's first detection.
pub proof fn lemma_suppressed_drawn_from(s: Seq<Detection>, iou_threshold: int)
    ensures
        suppressed(s, iou_threshold).len() <= s.len(),
        drawn_from(suppressed(s, iou_threshold), s),
        s.len() > 0 ==> suppressed(s, iou_threshold).len() > 0 && suppressed(s, iou_threshold)[0]
            == s[0],
    decreases s.len(),
{
    if s.len() > 0 {
        let rest = remainder(s, iou_threshold);
        lemma_remainder(s, iou_threshold);
        lemma_suppressed_drawn_from(rest, iou_threshold);
        let tail = suppressed(rest, iou_threshold);
        let out = suppressed(s, iou_threshold);
        assert(out == seq![s[0]] + tail);
        assert forall|i: int| 0 <= i < out.len() implies s.contains(#[trigger] out[i]) by {
            if i == 0 {
                assert(out[0] == s[0]);
            } else {
                assert(out[i] == tail[i - 1]);
                assert(rest.contains(tail[i - 1]));
                let k = choose|k: int| 0 <= k < rest.len() && rest[k] == tail[i - 1];
                assert(s.contains(rest[k]));
            }
        }
    }
}

/// After suppression no two detections overlap by more than the threshold.
pub proof fn lemma_suppressed_free_of_overlap(s: Seq<Detection>, iou_threshold: int)
    ensures
        free_of_overlap(suppressed(s, iou_threshold), iou_threshold),
    decreases s.len(),
{
    if s.len() > 0 {
        let rest = remainder(s, iou_threshold);
        lemma_remainder(s, iou_threshold);
        lemma_suppressed_free_of_overlap(rest, iou_threshold);
        lemma_suppressed_drawn_from(rest, iou_threshold);
        let tail = suppressed(rest, iou_threshold);
        let out = suppressed(s, iou_threshold);
        assert(out == seq![s[0]] + tail);
        assert forall|i: int, j: int| 0 <= i < j < out.len() implies !overlap_exceeds(
            out[i].bbox,
            out[j].bbox,
            iou_threshold,
        ) by {
            assert(out[j] == tail[j - 1]);
            if i == 0 {
                assert(out[0] == s[0]);
                assert(rest.contains(tail[j - 1]));
                let k = choose|k: int| 0 <= k < rest.len() && rest[k] == tail[j - 1];
                assert(!overlap_exceeds(s[0].bbox, rest[k].bbox, iou_threshold));
            } else {
                assert(out[i] == tail[i - 1]);
            }
        }
    }
}

/// Suppression removes nothing from a list in which no two detections
/// overlap by more than the threshold.
pub proof fn lemma_suppressed_fixed_point(s: Seq<Detection>, iou_threshold: int)
    requires
        free_of_overlap(s, iou_threshold),
    ensures
        suppressed(s, iou_threshold) == s,
    decreases s.len(),
{
    if s.len() > 0 {
        let rest = s.drop_first();
        let pred = clear_of(s[0].bbox, iou_threshold);
        assert forall|i: int| 0 <= i < rest.len() implies pred(#[trigger] rest[i]) by {
            assert(rest[i] == s[i + 1]);
            assert(!overlap_exceeds(s[0].bbox, s[i + 1].bbox, iou_threshold));
        }
        lemma_filter_keeps_all(rest, pred);
        assert(free_of_overlap(rest, iou_threshold)) by {
            assert forall|i: int, j: int| 0 <= i < j < rest.len() implies !overlap_exceeds(
                rest[i].bbox,
                rest[j].bbox,
                iou_threshold,
            ) by {
                assert(rest[i] == s[i + 1] && rest[j] == s[j + 1]);
            }
        }
        lemma_suppressed_fixed_point(rest, iou_threshold);
        assert(seq![s[0]] + rest =~= s);
    } else {
        assert(suppressed(s, iou_threshold) =~= s);
    }
}

/// Suppressing a second time removes nothing.
pub proof fn lemma_suppressed_idempotent(s: Seq<Detection>, iou_threshold: int)
    ensures
        suppressed(suppressed(s, iou_threshold), iou_threshold) == suppressed(s, iou_threshold),
{
    lemma_suppressed_free_of_overlap(s, iou_threshold);
    lemma_suppressed_fixed_point(suppressed(s, iou_threshold), iou_threshold);
}

/// Suppressing a prefix of a list gives a prefix of what suppressing the
/// whole list gives.
pub proof fn lemma_suppressed_prefix(s: Seq<Detection>, k: int, iou_threshold: int)
    requires
        0 <= k <= s.len(),
    ensures
        suppressed(s.take(k), iou_threshold).len() <= suppressed(s, iou_threshold).len(),
        suppressed(s.take(k), iou_threshold) == suppressed(s, iou_threshold).take(
            suppressed(s.take(k), iou_threshold).len() as int,
        ),
    decreases s.len(),
{
    let head = s.take(k);
    if k == 0 {
        assert(suppressed(head, iou_threshold) =~= Seq::<Detection>::empty());
        assert(suppressed(s, iou_threshold).take(0) =~= Seq::<Detection>::empty());
    } else {
        let pred = clear_of(s[0].bbox, iou_threshold);
        let rest = s.drop_first();
        assert(head[0] == s[0]);
        assert(head.drop_first() =~= rest.take(k - 1));
        lemma_filter_prefix(rest, pred, k - 1);
        let whole = rest.filter(pred);
        let m = rest.take(k - 1).filter(pred).len() as int;
        assert(remainder(head, iou_threshold) == whole.take(m));
        lemma_remainder(s, iou_threshold);
        lemma_suppressed_prefix(whole, m, iou_threshold);
        let part_tail = suppressed(whole.take(m), iou_threshold);
        let whole_tail = suppressed(whole, iou_threshold);
        assert(suppressed(head, iou_threshold) == seq![s[0]] + part_tail);
        assert(suppressed(s, iou_threshold) == seq![s[0]] + whole_tail);
        assert((seq![s[0]] + whole_tail).take(1 + part_tail.len() as int) =~= seq![s[0]]
            + whole_tail.take(part_tail.len() as int));
    }
}

/// Suppression invents nothing: it returns no detection more often than its
/// input holds it.
pub proof fn lemma_suppressed_submultiset(s: Seq<Detection>, iou_threshold: int)
    ensures
        suppressed(s, iou_threshold).to_multiset().subset_of(s.to_multiset()),
    decreases s.len(),
{
    broadcast use vstd::multiset::group_multiset_axioms;

    if s.len() > 0 {
        let later = s.drop_first();
        let rest = remainder(s, iou_threshold);
        let tail = suppressed(rest, iou_threshold);
        lemma_remainder(s, iou_threshold);
        lemma_suppressed_submultiset(rest, iou_threshold);
        lemma_filter_submultiset(later, clear_of(s[0].bbox, iou_threshold));
        lemma_prepend_multiset(s[0], tail);
        lemma_prepend_multiset(s[0], later);
        assert(seq![s[0]] + later =~= s);
        assert forall|v: Detection|
            suppressed(s, iou_threshold).to_multiset().count(v) <= s.to_multiset().count(v) by {
            assert(tail.to_multiset().count(v) <= rest.to_multiset().count(v));
            assert(rest.to_multiset().count(v) <= later.to_multiset().count(v));
        }
    } else {
        assert(suppressed(s, iou_threshold) =~= s);
    }
}

/// Nothing is removed without cause: a detection of a descending list is
/// kept, or a kept detection of at least its confidence overlaps it by more
/// than the threshold.
pub proof fn lemma_suppressed_covers(s: Seq<Detection>, iou_threshold: int, d: Detection)
    requires
        descending(s),
        s.contains(d),
    ensures
        suppressed(s, iou_threshold).contains(d) || exists|k: int|
            0 <= k < suppressed(s, iou_threshold).len() && (#[trigger] suppressed(
                s,
                iou_threshold,
            )[k]).confidence >= d.confidence && overlap_exceeds(
                suppressed(s, iou_threshold)[k].bbox,
                d.bbox,
                iou_threshold,
            ),
    decreases s.len(),
{
    let out = suppressed(s, iou_threshold);
    let i = choose|i: int| 0 <= i < s.len() && s[i] == d;
    let rest = remainder(s, iou_threshold);
    let tail = suppressed(rest, iou_threshold);
    assert(out == seq![s[0]] + tail);
    if i == 0 {
        assert(out[0] == d);
    } else if overlap_exceeds(s[0].bbox, d.bbox, iou_threshold) {
        assert(out[0] == s[0]);
        assert(s[0].confidence >= s[i].confidence);
    } else {
        let later = s.drop_first();
        let pred = clear_of(s[0].bbox, iou_threshold);
        assert(later[i - 1] == d);
        assert(pred(later[i - 1]));
        later.lemma_filter_contains(pred, i - 1);
        lemma_remainder(s, iou_threshold);
        lemma_remainder_descending(s, iou_threshold);
        lemma_suppressed_covers(rest, iou_threshold, d);
        if tail.contains(d) {
            let k = choose|k: int| 0 <= k < tail.len() && tail[k] == d;
            assert(out[k + 1] == d);
        } else {
            let k = choose|k: int|
                0 <= k < tail.len() && (#[trigger] tail[k]).confidence >= d.confidence
                    && overlap_exceeds(tail[k].bbox, d.bbox, iou_threshold);
            assert(out[k + 1] == tail[k]);
        }
    }
}

/// Suppression keeps a descending list descending.
pub proof fn lemma_suppressed_descending(s: Seq<Detection>, iou_threshold: int)
    requires
        descending(s),
    ensures
        descending(suppressed(s, iou_threshold)),
    decreases s.len(),
{
    if s.len() > 0 {
        let rest = remainder(s, iou_threshold);
        lemma_remainder(s, iou_threshold);
        lemma_remainder_descending(s, iou_threshold);
        lemma_suppressed_descending(rest, iou_threshold);
        lemma_suppressed_drawn_from(rest, iou_threshold);
        let tail = suppressed(rest, iou_threshold);
        let out = suppressed(s, iou_threshold);
        assert(out == seq![s[0]] + tail);
        assert forall|i: int, j: int| 0 <= i < j < out.len() implies out[i].confidence
            >= out[j].confidence by {
            assert(out[j] == tail[j - 1]);
            if i == 0 {
                assert(rest.contains(tail[j - 1]));
                let k = choose|k: int| 0 <= k < rest.len() && rest[k] == tail[j - 1];
                assert(s.contains(rest[k]));
                let n = choose|n: int| 0 <= n < s.len() && s[n] == rest[k];
                if n > 0 {
                    assert(s[0].confidence >= s[n].confidence);
                }
            } else {
                assert(out[i] == tail[i - 1]);
            }
        }
    }
}

/// The remainder of a descending list is descending.
proof fn lemma_remainder_descending(s: Seq<Detection>, iou_threshold: int)
    requires
        s.len() > 0,
        descending(s),
    ensures
        descending(remainder(s, iou_threshold)),
{
    let rest = s.drop_first();
    assert(descending(rest)) by {
        assert forall|i: int, j: int| 0 <= i < j < rest.len() implies rest[i].confidence
            >= rest[j].confidence by {
            assert(rest[i] == s[i + 1] && rest[j] == s[j + 1]);
        }
    }
    lemma_filter_descending(rest, clear_of(s[0].bbox, iou_threshold));
}

/// Filtering keeps a descending list descending.
pub proof fn lemma_filter_descending(s: Seq<Detection>, pred: spec_fn(Detection) -> bool)
    requires
        descending(s),
    ensures
        descending(s.filter(pred)),
    decreases s.len(),
{
    reveal(Seq::filter);
    if s.len() > 0 {
        let front = s.drop_last();
        assert(descending(front)) by {
            assert forall|i: int, j: int| 0 <= i < j < front.len() implies front[i].confidence
                >= front[j].confidence by {
                assert(front[i] == s[i] && front[j] == s[j]);
            }
        }
        lemma_filter_descending(front, pred);
        lemma_filter_members(front, pred);
        let kept = front.filter(pred);
        let out = s.filter(pred);
        assert forall|i: int, j: int| 0 <= i < j < out.len() implies out[i].confidence
            >= out[j].confidence by {
            if j < kept.len() {
                assert(out[i] == kept[i] && out[j] == kept[j]);
            } else {
                assert(out[j] == s.last());
                assert(out[i] == kept[i]);
                assert(front.contains(kept[i]));
                let k = choose|k: int| 0 <= k < front.len() && front[k] == kept[i];
                assert(s[k].confidence >= s[s.len() - 1].confidence);
            }
        }
    }
}

/// The detections after the first whose overlap with it does not exceed
/// `iou_threshold`, in their order.
fn keep_clear_of_first(list: &Vec<Detection>, iou_threshold: i32) -> (kept: Vec<Detection>)
    requires
        list@.len() > 0,
        boxes_in_range(list@),
    ensures
        kept@ == remainder(list@, iou_threshold as int),
        boxes_in_range(kept@),
        kept@.len() < list@.len(),
{
    let best = list[0];
    let ghost rest = list@.drop_first();
    let ghost pred = clear_of(best.bbox, iou_threshold as int);
    let mut kept: Vec<Detection> = Vec::new();
    let mut j: usize = 1;
    proof {
        lemma_filter_empty(pred);
        assert(rest.take(0) =~= Seq::<Detection>::empty());
    }
    while j < list.len()
        invariant
            1 <= j <= list@.len(),
            list@.len() > 0,
            boxes_in_range(list@),
            best == list@[0],
            rest == list@.drop_first(),
            pred == clear_of(best.bbox, iou_threshold as int),
            kept@ == rest.take(j - 1).filter(pred),
            boxes_in_range(kept@),
            kept@.len() <= j - 1,
        decreases list@.len() - j,
    {
        let d = list[j];
        proof {
            assert(rest.take(j as int) =~= rest.take(j - 1).push(d));
            lemma_filter_push(rest.take(j - 1), pred, d);
        }
        if !exceeds_overlap(&best.bbox, &d.bbox, iou_threshold) {
            kept.push(d);
        }
        j += 1;
    }
    proof {
        assert(rest.take(list@.len() - 1) =~= rest);
    }
    kept
}

/// Non-maximum suppression of a list ranked by descending confidence.
///
/// The best remaining detection is kept, every remaining detection whose
/// overlap with it exceeds `iou_threshold` (in millionths) is removed, and
/// this is repeated until nothing remains. In the result no two detections
/// overlap by more than the threshold, so suppressing it again removes
/// nothing.
pub fn nms(ranked_list: Vec<Detection>, iou_threshold: i32) -> (kept: Vec<Detection>)
    requires
        boxes_in_range(ranked_list@),
    ensures
        kept@ == suppressed(ranked_list@, iou_threshold as int),
        free_of_overlap(kept@, iou_threshold as int),
        suppressed(kept@, iou_threshold as int) == kept@,
        drawn_from(kept@, ranked_list@),
        boxes_in_range(kept@),
{
    let mut kept: Vec<Detection> = Vec::new();
    let mut remaining = ranked_list;
    proof {
        assert(kept@ + suppressed(remaining@, iou_threshold as int) =~= suppressed(
            remaining@,
            iou_threshold as int,
        ));
    }
    while remaining.len() > 0
        invariant
            boxes_in_range(remaining@),
            kept@ + suppressed(remaining@, iou_threshold as int) == suppressed(
                ranked_list@,
                iou_threshold as int,
            ),
        decreases remaining@.len(),
    {
        let best = remaining[0];
        let rest = keep_clear_of_first(&remaining, iou_threshold);
        proof {
            assert(kept@.push(best) + suppressed(rest@, iou_threshold as int) =~= kept@ + (
            seq![best] + suppressed(rest@, iou_threshold as int)));
        }
        kept.push(best);
        remaining = rest;
    }
    proof {
        assert(kept@ + Seq::<Detection>::empty() =~= kept@);
        lemma_suppressed_free_of_overlap(ranked_list@, iou_threshold as int);
        lemma_suppressed_idempotent(ranked_list@, iou_threshold as int);
        lemma_suppressed_drawn_from(ranked_list@, iou_threshold as int);
        crate::detection::lemma_drawn_from_in_range(kept@, ranked_list@);
    }
    kept
}

} // verus!
