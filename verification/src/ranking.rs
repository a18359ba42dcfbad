//! Ordering detections by descending confidence.
//!
//! The order is stable: detections of equal confidence keep the order in
//! which they were given.

use crate::detection::{above, boxes_in_range, descending, drawn_from, Detection};
use crate::sequences::{lemma_filter_keeps_all, lemma_filter_members, lemma_filter_push};
use vstd::prelude::*;

verus! {

/// `d` placed into a ranked list: behind every entry whose confidence is at
/// least its own, and before every entry with a smaller one.
pub open spec fn insert_ranked(s: Seq<Detection>, d: Detection) -> Seq<Detection>
    decreases s.len(),
{
    if s.len() == 0 {
        seq![d]
    } else if s.last().confidence >= d.confidence {
        s.push(d)
    } else {
        insert_ranked(s.drop_last(), d).push(s.last())
    }
}

/// The detections ordered by descending confidence; detections of equal
/// confidence keep their relative order.
pub open spec fn ranked(s: Seq<Detection>) -> Seq<Detection>
    decreases s.len(),
{
    if s.len() == 0 {
        Seq::empty()
    } else {
        insert_ranked(ranked(s.drop_last()), s.last())
    }
}

/// Where [`insert_ranked`] places `d`: the length of the longest prefix that
/// ends in an entry whose confidence is at least that of `d`.
pub open spec fn rank_position(s: Seq<Detection>, d: Detection) -> int
    decreases s.len(),
{
    if s.len() == 0 {
        0
    } else if s.last().confidence >= d.confidence {
        s.len() as int
    } else {
        rank_position(s.drop_last(), d)
    }
}

/// [`insert_ranked`] inserts `d` at [`rank_position`]: every entry behind it
/// has a smaller confidence, and the entry just before it does not.
pub proof fn lemma_insert_ranked_position(s: Seq<Detection>, d: Detection)
    ensures
        0 <= rank_position(s, d) <= s.len(),
        insert_ranked(s, d) == s.insert(rank_position(s, d), d),
        insert_ranked(s, d).len() == s.len() + 1,
        forall|k: int| rank_position(s, d) <= k < s.len() ==> s[k].confidence < d.confidence,
        rank_position(s, d) > 0 ==> s[rank_position(s, d) - 1].confidence >= d.confidence,
    decreases s.len(),
{
    if s.len() == 0 {
        assert(seq![d] =~= s.insert(0, d));
    } else if s.last().confidence >= d.confidence {
        assert(s.push(d) =~= s.insert(s.len() as int, d));
    } else {
        let front = s.drop_last();
        lemma_insert_ranked_position(front, d);
        let pos = rank_position(front, d);
        assert(front.insert(pos, d).push(s.last()) =~= s.insert(pos, d));
        assert forall|k: int| pos <= k < s.len() implies s[k].confidence < d.confidence by {
            if k < front.len() {
                assert(front[k] == s[k]);
            }
        }
        if pos > 0 {
            assert(front[pos - 1] == s[pos - 1]);
        }
    }
}

/// Inserting into a descending list leaves it descending.
pub proof fn lemma_insert_ranked_descending(s: Seq<Detection>, d: Detection)
    requires
        descending(s),
    ensures
        descending(insert_ranked(s, d)),
{
    lemma_insert_ranked_position(s, d);
    let pos = rank_position(s, d);
    let r = insert_ranked(s, d);
    assert forall|i: int, j: int| 0 <= i < j < r.len() implies r[i].confidence
        >= r[j].confidence by {
        if j < pos {
            assert(r[i] == s[i] && r[j] == s[j]);
        } else if j == pos {
            assert(r[j] == d);
            assert(r[i] == s[i]);
            if i < pos - 1 {
                assert(s[i].confidence >= s[pos - 1].confidence);
            }
        } else if i < pos {
            assert(r[i] == s[i] && r[j] == s[j - 1]);
        } else if i == pos {
            assert(r[i] == d && r[j] == s[j - 1]);
        } else {
            assert(r[i] == s[i - 1] && r[j] == s[j - 1]);
        }
    }
}

/// Inserting adds exactly one detection and loses none.
pub proof fn lemma_insert_ranked_multiset(s: Seq<Detection>, d: Detection)
    ensures
        insert_ranked(s, d).to_multiset() == s.to_multiset().insert(d),
    decreases s.len(),
{
    broadcast use vstd::seq_lib::to_multiset_build;

    if s.len() == 0 {
        assert(seq![d] =~= s.push(d));
    } else if s.last().confidence >= d.confidence {
    } else {
        let front = s.drop_last();
        lemma_insert_ranked_multiset(front, d);
        assert(front.push(s.last()) =~= s);
        assert(s.to_multiset() =~= front.to_multiset().insert(s.last()));
        assert(insert_ranked(s, d).to_multiset() =~= front.to_multiset().insert(d).insert(
            s.last(),
        ));
        assert(front.to_multiset().insert(d).insert(s.last()) =~= front.to_multiset().insert(
            s.last(),
        ).insert(d));
    }
}

/// A ranked list is in descending order of confidence.
pub proof fn lemma_ranked_descending(s: Seq<Detection>)
    ensures
        descending(ranked(s)),
    decreases s.len(),
{
    if s.len() > 0 {
        lemma_ranked_descending(s.drop_last());
        lemma_insert_ranked_descending(ranked(s.drop_last()), s.last());
    }
}

/// Ranking reorders a list: it holds the same detections, each as often as
/// before.
pub proof fn lemma_ranked_permutation(s: Seq<Detection>)
    ensures
        ranked(s).to_multiset() == s.to_multiset(),
        ranked(s).len() == s.len(),
        drawn_from(ranked(s), s),
        drawn_from(s, ranked(s)),
    decreases s.len(),
{
    broadcast use vstd::seq_lib::to_multiset_build;

    if s.len() == 0 {
        assert(ranked(s) =~= s);
    } else {
        let front = s.drop_last();
        lemma_ranked_permutation(front);
        lemma_insert_ranked_multiset(ranked(front), s.last());
        assert(front.push(s.last()) =~= s);
        assert(s.to_multiset() =~= front.to_multiset().insert(s.last()));
    }
    vstd::seq_lib::to_multiset_len(s);
    vstd::seq_lib::to_multiset_len(ranked(s));
    assert forall|i: int| 0 <= i < ranked(s).len() implies s.contains(
        #[trigger] ranked(s)[i],
    ) by {
        let x = ranked(s)[i];
        assert(ranked(s).contains(x));
        vstd::seq_lib::to_multiset_contains(ranked(s), x);
        vstd::seq_lib::to_multiset_contains(s, x);
    }
    assert forall|i: int| 0 <= i < s.len() implies ranked(s).contains(#[trigger] s[i]) by {
        let x = s[i];
        assert(s.contains(x));
        vstd::seq_lib::to_multiset_contains(ranked(s), x);
        vstd::seq_lib::to_multiset_contains(s, x);
    }
}

/// A list that is already in descending order is its own ranking.
pub proof fn lemma_ranked_of_descending(s: Seq<Detection>)
    requires
        descending(s),
    ensures
        ranked(s) == s,
    decreases s.len(),
{
    if s.len() == 0 {
        assert(ranked(s) =~= s);
    } else {
        let front = s.drop_last();
        assert(descending(front)) by {
            assert forall|i: int, j: int| 0 <= i < j < front.len() implies front[i].confidence
                >= front[j].confidence by {
                assert(front[i] == s[i] && front[j] == s[j]);
            }
        }
        lemma_ranked_of_descending(front);
        if front.len() > 0 {
            assert(front.last() == s[s.len() - 2]);
            assert(s[s.len() - 2].confidence >= s[s.len() - 1].confidence);
        } else {
            assert(seq![s.last()] =~= front.push(s.last()));
        }
        assert(front.push(s.last()) =~= s);
    }
}

/// The detections whose confidence is exactly `confidence`.
pub open spec fn at_confidence(confidence: int) -> spec_fn(Detection) -> bool {
    |d: Detection| d.confidence == confidence
}

/// Ranking is stable: the detections of any one confidence come in the
/// order in which they were given.
pub proof fn lemma_ranked_stable(s: Seq<Detection>, confidence: int)
    ensures
        ranked(s).filter(at_confidence(confidence)) == s.filter(at_confidence(confidence)),
{
    let pred = at_confidence(confidence);
    let same = s.filter(pred);
    lemma_ranked_filter(s, pred);
    lemma_filter_members(s, pred);
    assert(descending(same)) by {
        assert forall|i: int, j: int| 0 <= i < j < same.len() implies same[i].confidence
            >= same[j].confidence by {
            assert(pred(same[i]) && pred(same[j]));
        }
    }
    lemma_ranked_of_descending(same);
}

/// Ranking keeps every box in range.
pub proof fn lemma_ranked_in_range(s: Seq<Detection>)
    requires
        boxes_in_range(s),
    ensures
        boxes_in_range(ranked(s)),
{
    lemma_ranked_permutation(s);
    crate::detection::lemma_drawn_from_in_range(ranked(s), s);
}

/// Filtering a descending list after an insertion is the same as inserting
/// into the filtered list, when the inserted detection passes the filter.
pub proof fn lemma_insert_ranked_filter(
    s: Seq<Detection>,
    d: Detection,
    pred: spec_fn(Detection) -> bool,
)
    requires
        descending(s),
    ensures
        insert_ranked(s, d).filter(pred) == if pred(d) {
            insert_ranked(s.filter(pred), d)
        } else {
            s.filter(pred)
        },
    decreases s.len(),
{
    let kept = s.filter(pred);
    if s.len() == 0 {
        reveal(Seq::filter);
        assert(seq![d] =~= s.push(d));
        lemma_filter_push(s, pred, d);
        assert(kept =~= Seq::<Detection>::empty());
        assert(kept.push(d) =~= seq![d]);
    } else if s.last().confidence >= d.confidence {
        lemma_filter_push(s, pred, d);
        if pred(d) && kept.len() > 0 {
            lemma_filter_members(s, pred);
            let x = kept.last();
            assert(s.contains(kept[kept.len() - 1]));
            let k = choose|k: int| 0 <= k < s.len() && s[k] == x;
            if k < s.len() - 1 {
                assert(s[k].confidence >= s[s.len() - 1].confidence);
            }
            assert(x.confidence >= d.confidence);
        }
        if pred(d) && kept.len() == 0 {
            assert(seq![d] =~= kept.push(d));
        }
    } else {
        let front = s.drop_last();
        let last = s.last();
        assert(descending(front)) by {
            assert forall|i: int, j: int| 0 <= i < j < front.len() implies front[i].confidence
                >= front[j].confidence by {
                assert(front[i] == s[i] && front[j] == s[j]);
            }
        }
        lemma_insert_ranked_filter(front, d, pred);
        lemma_filter_push(insert_ranked(front, d), pred, last);
        assert(front.push(last) =~= s);
        lemma_filter_push(front, pred, last);
        if pred(d) && pred(last) {
            let kept_front = front.filter(pred);
            assert(kept == kept_front.push(last));
            assert(kept.last() == last);
            assert(kept.drop_last() =~= kept_front);
        }
    }
}

/// Ranking and filtering can be done in either order.
pub proof fn lemma_ranked_filter(s: Seq<Detection>, pred: spec_fn(Detection) -> bool)
    ensures
        ranked(s).filter(pred) == ranked(s.filter(pred)),
    decreases s.len(),
{
    if s.len() == 0 {
        reveal(Seq::filter);
        assert(ranked(s) =~= s);
    } else {
        let front = s.drop_last();
        let last = s.last();
        lemma_ranked_filter(front, pred);
        lemma_ranked_descending(front);
        lemma_insert_ranked_filter(ranked(front), last, pred);
        assert(front.push(last) =~= s);
        lemma_filter_push(front, pred, last);
        if pred(last) {
            let kept_front = front.filter(pred);
            assert(kept_front.push(last).drop_last() =~= kept_front);
        }
    }
}

/// In a descending list, the detections above a threshold form a prefix.
pub proof fn lemma_descending_filter_prefix(s: Seq<Detection>, threshold: int)
    requires
        descending(s),
    ensures
        s.filter(above(threshold)).len() <= s.len(),
        s.filter(above(threshold)) == s.take(s.filter(above(threshold)).len() as int),
    decreases s.len(),
{
    let pred = above(threshold);
    if s.len() == 0 {
        reveal(Seq::filter);
        assert(s.take(0) =~= s);
    } else if pred(s.last()) {
        assert forall|i: int| 0 <= i < s.len() implies pred(#[trigger] s[i]) by {
            if i < s.len() - 1 {
                assert(s[i].confidence >= s[s.len() - 1].confidence);
            }
        }
        lemma_filter_keeps_all(s, pred);
        assert(s.take(s.len() as int) =~= s);
    } else {
        let front = s.drop_last();
        assert(descending(front)) by {
            assert forall|i: int, j: int| 0 <= i < j < front.len() implies front[i].confidence
                >= front[j].confidence by {
                assert(front[i] == s[i] && front[j] == s[j]);
            }
        }
        lemma_descending_filter_prefix(front, threshold);
        assert(front.push(s.last()) =~= s);
        lemma_filter_push(front, pred, s.last());
        let k = front.filter(pred).len() as int;
        assert(front.take(k) =~= s.take(k));
    }
}

/// Inserts `d` behind every entry whose confidence is at least its own.
fn insert_by_confidence(list: &mut Vec<Detection>, d: Detection)
    ensures
        final(list)@ == insert_ranked(old(list)@, d),
{
    let ghost before = list@;
    let mut pos: usize = list.len();
    proof {
        assert(before.take(pos as int) =~= before);
        assert(insert_ranked(before, d) + before.skip(pos as int) =~= insert_ranked(before, d));
    }
    while pos > 0 && list[pos - 1].confidence < d.confidence
        invariant
            list@ == before,
            0 <= pos <= before.len(),
            insert_ranked(before, d) == insert_ranked(before.take(pos as int), d) + before.skip(
                pos as int,
            ),
        decreases pos,
    {
        proof {
            let head = before.take(pos as int);
            assert(head.last() == before[pos - 1]);
            assert(head.drop_last() =~= before.take(pos - 1));
            assert(insert_ranked(head, d) == insert_ranked(before.take(pos - 1), d).push(
                before[pos - 1],
            ));
            assert(insert_ranked(before.take(pos - 1), d).push(before[pos - 1]) + before.skip(
                pos as int,
            ) =~= insert_ranked(before.take(pos - 1), d) + before.skip(pos - 1));
        }
        pos -= 1;
    }
    proof {
        let head = before.take(pos as int);
        if pos > 0 {
            assert(head.last() == before[pos - 1]);
        }
        assert(insert_ranked(head, d) == head.push(d));
        assert(before.take(pos as int) == before.subrange(0, pos as int));
    }
    list.insert(pos, d);
}

/// Orders detections by descending confidence. Detections of equal
/// confidence keep their relative order.
pub fn sort_by_confidence(detections: Vec<Detection>) -> (sorted: Vec<Detection>)
    ensures
        sorted@ == ranked(detections@),
        descending(sorted@),
        sorted@.to_multiset() == detections@.to_multiset(),
{
    let mut sorted: Vec<Detection> = Vec::new();
    let mut i: usize = 0;
    proof {
        assert(detections@.take(0) =~= Seq::<Detection>::empty());
    }
    while i < detections.len()
        invariant
            0 <= i <= detections@.len(),
            sorted@ == ranked(detections@.take(i as int)),
        decreases detections@.len() - i,
    {
        proof {
            let next = detections@.take(i as int + 1);
            assert(next.drop_last() =~= detections@.take(i as int));
            assert(next.last() == detections@[i as int]);
        }
        insert_by_confidence(&mut sorted, detections[i]);
        i += 1;
    }
    proof {
        assert(detections@.take(detections@.len() as int) =~= detections@);
        lemma_ranked_descending(detections@);
        lemma_ranked_permutation(detections@);
    }
    sorted
}

} // verus!
