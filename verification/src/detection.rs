//! Detections: a box and the confidence that an object is inside it.

use crate::geometry::BoundingBox;
use vstd::prelude::*;

verus! {

/// A box with the confidence that an object is inside it.
///
/// The confidence is a fixed-point number in the unit of the scores it was
/// read from.
#[derive(Clone, Copy, Debug, PartialEq, Eq, Structural)]
pub struct Detection {
    pub bbox: BoundingBox,
    pub confidence: i32,
}

/// The detections whose confidence is strictly above `threshold`.
pub open spec fn above(threshold: int) -> spec_fn(Detection) -> bool {
    |d: Detection| d.confidence > threshold
}

/// No detection has a higher confidence than one before it.
pub open spec fn descending(s: Seq<Detection>) -> bool {
    forall|i: int, j: int| 0 <= i < j < s.len() ==> s[i].confidence >= s[j].confidence
}

/// Every box of the list has coordinates for which areas can be computed.
pub open spec fn boxes_in_range(s: Seq<Detection>) -> bool {
    forall|i: int| 0 <= i < s.len() ==> (#[trigger] s[i]).bbox.in_range()
}

/// Every detection of `part` occurs in `whole`.
pub open spec fn drawn_from(part: Seq<Detection>, whole: Seq<Detection>) -> bool {
    forall|i: int| 0 <= i < part.len() ==> whole.contains(#[trigger] part[i])
}

/// A list drawn from one whose boxes are in range has its boxes in range.
pub proof fn lemma_drawn_from_in_range(part: Seq<Detection>, whole: Seq<Detection>)
    requires
        drawn_from(part, whole),
        boxes_in_range(whole),
    ensures
        boxes_in_range(part),
{
    assert forall|i: int| 0 <= i < part.len() implies (#[trigger] part[i]).bbox.in_range() by {
        assert(whole.contains(part[i]));
        let k = choose|k: int| 0 <= k < whole.len() && whole[k] == part[i];
        assert(whole[k].bbox.in_range());
    }
}

/// Being drawn from is transitive.
pub proof fn lemma_drawn_from_chain(a: Seq<Detection>, b: Seq<Detection>, c: Seq<Detection>)
    requires
        drawn_from(a, b),
        drawn_from(b, c),
    ensures
        drawn_from(a, c),
{
    assert forall|i: int| 0 <= i < a.len() implies c.contains(#[trigger] a[i]) by {
        assert(b.contains(a[i]));
        let k = choose|k: int| 0 <= k < b.len() && b[k] == a[i];
        assert(c.contains(b[k]));
    }
}

} // verus!
