//! Greedy suppression of overlapping detections, class by class.

use crate::geometry::{iou_of, XYXY};
use vstd::prelude::*;

verus! {

/// Box `i` is looked at before box `j`: the more probable one first, and of
/// two equally probable ones the one that came first.
pub open spec fn precedes(boxes: Seq<XYXY>, i: int, j: int) -> bool {
    boxes[i].prob > boxes[j].prob || (boxes[i].prob == boxes[j].prob && i < j)
}

/// Box `a`, once kept, removes box `b`: both are of one class and overlap
/// by at least `threshold`.
pub open spec fn suppresses(a: XYXY, b: XYXY, threshold: u32) -> bool {
    a.class_id == b.class_id && iou_of(a, b) >= threshold
}

/// Some box of `keep` is looked at before box `i` and removes it.
pub open spec fn falls_to(boxes: Seq<XYXY>, threshold: u32, keep: Seq<usize>, i: int) -> bool {
    exists|k: int|
        #![trigger keep[k]]
        0 <= k < keep.len() && precedes(boxes, keep[k] as int, i) && suppresses(
            boxes[keep[k] as int],
            boxes[i],
            threshold,
        )
}

/// `order` lists every index of `boxes` once, in the order in which the
/// boxes are looked at.
pub open spec fn is_ranking(boxes: Seq<XYXY>, order: Seq<usize>) -> bool {
    &&& order.len() == boxes.len()
    &&& forall|m: int| 0 <= m < order.len() ==> (#[trigger] order[m] as int) < boxes.len()
    &&& forall|a: int, b: int|
        0 <= a < b < order.len() ==> precedes(boxes, #[trigger] order[a] as int, #[trigger] order[b] as int)
    &&& forall|i: usize| (i as int) < boxes.len() ==> #[trigger] order.contains(i)
}

/// `keep` is what greedy suppression leaves of `boxes`: indices of `boxes`,
/// in the order in which the boxes are looked at, and a box is among them
/// exactly if no kept box before it removes it.
pub open spec fn is_nms(boxes: Seq<XYXY>, threshold: u32, keep: Seq<usize>) -> bool {
    &&& forall|k: int| 0 <= k < keep.len() ==> (#[trigger] keep[k] as int) < boxes.len()
    &&& forall|a: int, b: int|
        0 <= a < b < keep.len() ==> precedes(boxes, #[trigger] keep[a] as int, #[trigger] keep[b] as int)
    &&& forall|i: usize|
        (i as int) < boxes.len() ==> (#[trigger] keep.contains(i) <==> !falls_to(
            boxes,
            threshold,
            keep,
            i as int,
        ))
}

/// The order in which boxes are looked at is total: no box comes before
/// itself, and of two different boxes exactly one comes before the other.
pub proof fn law_rank_order_is_total(boxes: Seq<XYXY>, i: int, j: int)
    ensures
        !precedes(boxes, i, i),
        i != j ==> (precedes(boxes, i, j) <==> !precedes(boxes, j, i)),
{
}

/// Adding `i` at the end of `keep` adds to what falls exactly the boxes
/// that `i` precedes and removes.
proof fn lemma_falls_to_push(boxes: Seq<XYXY>, threshold: u32, keep: Seq<usize>, i: usize, j: int)
    ensures
        falls_to(boxes, threshold, keep.push(i), j) <==> (falls_to(boxes, threshold, keep, j) || (
        precedes(boxes, i as int, j) && suppresses(boxes[i as int], boxes[j], threshold))),
{
    let more = keep.push(i);
    if falls_to(boxes, threshold, keep, j) {
        let k = choose|k: int|
            #![trigger keep[k]]
            0 <= k < keep.len() && precedes(boxes, keep[k] as int, j) && suppresses(
                boxes[keep[k] as int],
                boxes[j],
                threshold,
            );
        assert(more[k] == keep[k]);
    }
    if precedes(boxes, i as int, j) && suppresses(boxes[i as int], boxes[j], threshold) {
        assert(more[keep.len() as int] == i);
    }
    if falls_to(boxes, threshold, more, j) {
        let k = choose|k: int|
            #![trigger more[k]]
            0 <= k < more.len() && precedes(boxes, more[k] as int, j) && suppresses(
                boxes[more[k] as int],
                boxes[j],
                threshold,
            );
        if k < keep.len() {
            assert(keep[k] == more[k]);
        }
    }
}

/// The indices of `boxes` in the order in which the boxes are looked at.
fn ranked_indices(boxes: &[XYXY]) -> (order: Vec<usize>)
    ensures
        is_ranking(boxes@, order@),
{
    let n = boxes.len();
    let mut order: Vec<usize> = Vec::new();
    let mut i: usize = 0;
    while i < n
        invariant
            n == boxes.len(),
            i <= n,
            order.len() == i,
            forall|m: int| 0 <= m < order.len() ==> (#[trigger] order[m] as int) < i,
            forall|a: int, b: int|
                0 <= a < b < order.len() ==> precedes(
                    boxes@,
                    #[trigger] order[a] as int,
                    #[trigger] order[b] as int,
                ),
            forall|j: usize| j < i ==> #[trigger] order@.contains(j),
        decreases n - i,
    {
        let prob = boxes[i].prob;
        let mut p: usize = 0;
        while p < order.len() && boxes[order[p]].prob >= prob
            invariant
                n == boxes.len(),
                i < n,
                p <= order.len(),
                order.len() == i,
                prob == boxes[i as int].prob,
                forall|m: int| 0 <= m < order.len() ==> (#[trigger] order[m] as int) < i,
                forall|a: int| 0 <= a < p ==> boxes[#[trigger] order[a] as int].prob >= prob,
            decreases order.len() - p,
        {
            p += 1;
        }
        let ghost before = order@;
        order.insert(p, i);
        proof {
            let after = order@;
            assert(after == before.insert(p as int, i));
            assert forall|a: int, b: int| 0 <= a < b < after.len() implies precedes(
                boxes@,
                #[trigger] after[a] as int,
                #[trigger] after[b] as int,
            ) by {
                if b < p {
                    assert(after[a] == before[a] && after[b] == before[b]);
                } else if b == p {
                    assert(after[a] == before[a]);
                } else if a < p {
                    assert(after[a] == before[a] && after[b] == before[b - 1]);
                } else if a == p {
                    assert(after[b] == before[b - 1]);
                    if p < b - 1 {
                        assert(precedes(boxes@, before[p as int] as int, before[b - 1] as int));
                    }
                } else {
                    assert(after[a] == before[a - 1] && after[b] == before[b - 1]);
                }
            }
            assert forall|j: usize| j < i + 1 implies #[trigger] after.contains(j) by {
                if j == i {
                    assert(after[p as int] == i);
                } else {
                    assert(before.contains(j));
                    let m = choose|m: int| 0 <= m < before.len() && before[m] == j;
                    if m < p {
                        assert(after[m] == before[m]);
                    } else {
                        assert(after[m + 1] == before[m]);
                    }
                }
            }
            assert forall|m: int| 0 <= m < after.len() implies (#[trigger] after[m] as int) < i
                + 1 by {
                if m < p {
                    assert(after[m] == before[m]);
                } else if m > p {
                    assert(after[m] == before[m - 1]);
                }
            }
        }
        i += 1;
    }
    order
}

/// Greedy suppression: looks at the boxes from the most probable on, keeps
/// each box that no kept box removes, and returns the indices of the kept
/// boxes in that order.
pub fn nms_indices(boxes: &[XYXY], iou_threshold: u32) -> (keep: Vec<usize>)
    ensures
        is_nms(boxes@, iou_threshold, keep@),
{
    let n = boxes.len();
    let order = ranked_indices(boxes);
    let mut dropped: Vec<bool> = Vec::new();
    let mut f: usize = 0;
    while f < n
        invariant
            f <= n,
            dropped.len() == f,
            forall|i: int| 0 <= i < f ==> !dropped[i],
        decreases n - f,
    {
        dropped.push(false);
        f += 1;
    }
    let mut keep: Vec<usize> = Vec::new();
    let mut k: usize = 0;
    while k < n
        invariant
            n == boxes.len(),
            k <= n,
            is_ranking(boxes@, order@),
            dropped.len() == n,
            forall|a: int| 0 <= a < keep.len() ==> (#[trigger] keep[a] as int) < n,
            forall|a: int|
                0 <= a < keep.len() ==> exists|m: int|
                    0 <= m < k && order[m] == #[trigger] keep[a],
            forall|a: int, b: int|
                0 <= a < b < keep.len() ==> precedes(
                    boxes@,
                    #[trigger] keep[a] as int,
                    #[trigger] keep[b] as int,
                ),
            forall|m: int|
                0 <= m < k ==> (keep@.contains(#[trigger] order[m]) <==> !dropped[order[m] as int]),
            forall|i: int|
                0 <= i < n ==> (dropped[i] <==> #[trigger] falls_to(
                    boxes@,
                    iou_threshold,
                    keep@,
                    i,
                )),
        decreases n - k,
    {
        let i = order[k];
        if !dropped[i] {
            let ghost kept_before = keep@;
            let ghost dropped_before = dropped@;
            proof {
                assert forall|a: int| 0 <= a < kept_before.len() implies precedes(
                    boxes@,
                    #[trigger] kept_before[a] as int,
                    i as int,
                ) by {
                    let m = choose|m: int| 0 <= m < k && order[m] == kept_before[a];
                    assert(precedes(boxes@, order[m] as int, order[k as int] as int));
                }
            }
            keep.push(i);
            let mut l: usize = k + 1;
            while l < n
                invariant
                    n == boxes.len(),
                    k < l <= n,
                    i == order[k as int],
                    (i as int) < n,
                    is_ranking(boxes@, order@),
                    dropped.len() == n,
                    dropped_before.len() == n,
                    forall|m: int|
                        0 <= m < n ==> (dropped[#[trigger] order[m] as int] <==> (dropped_before[order[m] as int]
                            || (k < m < l && suppresses(
                            boxes[i as int],
                            boxes[order[m] as int],
                            iou_threshold,
                        )))),
                decreases n - l,
            {
                let j = order[l];
                proof {
                    assert(precedes(boxes@, order[k as int] as int, order[l as int] as int));
                    assert forall|m: int| 0 <= m < n && m != l implies order[m] != j by {
                        if m < l {
                            assert(precedes(boxes@, order[m] as int, order[l as int] as int));
                        } else {
                            assert(precedes(boxes@, order[l as int] as int, order[m] as int));
                        }
                    }
                }
                if boxes[j].class_id == boxes[i].class_id && boxes[i].iou(&boxes[j])
                    >= iou_threshold {
                    dropped.set(j, true);
                }
                l += 1;
            }
            proof {
                assert(keep@ == kept_before.push(i));
                assert forall|j: int| 0 <= j < n implies (dropped[j] <==> #[trigger] falls_to(
                    boxes@,
                    iou_threshold,
                    keep@,
                    j,
                )) by {
                    lemma_falls_to_push(boxes@, iou_threshold, kept_before, i, j);
                    assert(order@.contains(j as usize));
                    let m = choose|m: int| 0 <= m < order.len() && order[m] == j as usize;
                    assert(dropped[order[m] as int] <==> (dropped_before[order[m] as int] || (k < m
                        < n && suppresses(boxes[i as int], boxes[order[m] as int], iou_threshold))));
                    if m < k {
                        assert(precedes(boxes@, order[m] as int, order[k as int] as int));
                    } else if m > k {
                        assert(precedes(boxes@, order[k as int] as int, order[m] as int));
                    }
                }
                assert forall|m: int| 0 <= m < k + 1 implies (keep@.contains(#[trigger] order[m])
                    <==> !dropped[order[m] as int]) by {
                    if m < k {
                        assert(precedes(boxes@, order[m] as int, order[k as int] as int));
                        assert(dropped[order[m] as int] == dropped_before[order[m] as int]);
                        if kept_before.contains(order[m]) {
                            let a = choose|a: int|
                                0 <= a < kept_before.len() && kept_before[a] == order[m];
                            assert(keep@[a] == order[m]);
                        }
                        if keep@.contains(order[m]) {
                            let a = choose|a: int| 0 <= a < keep@.len() && keep@[a] == order[m];
                            assert(a < kept_before.len());
                            assert(kept_before[a] == order[m]);
                        }
                    } else {
                        assert(keep@[kept_before.len() as int] == i);
                        assert(dropped[order[m] as int] == dropped_before[order[m] as int]);
                    }
                }
                assert forall|a: int| 0 <= a < keep.len() implies exists|m: int|
                    0 <= m < k + 1 && order[m] == #[trigger] keep[a] by {
                    if a < kept_before.len() {
                        assert(keep[a] == kept_before[a]);
                        let m = choose|m: int| 0 <= m < k && order[m] == kept_before[a];
                        assert(0 <= m < k + 1 && order[m] == keep[a]);
                    } else {
                        assert(order[k as int] == keep[a]);
                    }
                }
            }
        } else {
            proof {
                assert forall|m: int| 0 <= m < k + 1 implies (keep@.contains(#[trigger] order[m])
                    <==> !dropped[order[m] as int]) by {
                    if m == k && keep@.contains(order[m]) {
                        let a = choose|a: int| 0 <= a < keep@.len() && keep@[a] == order[m];
                        let m2 = choose|m2: int| 0 <= m2 < k && order[m2] == keep[a];
                        assert(precedes(boxes@, order[m2] as int, order[k as int] as int));
                    }
                }
                assert forall|a: int| 0 <= a < keep.len() implies exists|m: int|
                    0 <= m < k + 1 && order[m] == #[trigger] keep[a] by {
                    let m = choose|m: int| 0 <= m < k && order[m] == keep[a];
                    assert(0 <= m < k + 1 && order[m] == keep[a]);
                }
            }
        }
        k += 1;
    }
    proof {
        assert forall|i: usize| (i as int) < boxes@.len() implies (#[trigger] keep@.contains(i)
            <==> !falls_to(boxes@, iou_threshold, keep@, i as int)) by {
            assert(order@.contains(i));
            let m = choose|m: int| 0 <= m < order.len() && order[m] == i;
            assert(keep@.contains(order[m]) <==> !dropped[order[m] as int]);
        }
    }
    keep
}

/// The boxes of `boxes` that `keep` names, in the order of `keep`.
pub open spec fn selected(boxes: Seq<XYXY>, keep: Seq<usize>) -> Seq<XYXY> {
    Seq::new(keep.len(), |k: int| boxes[keep[k] as int])
}

/// The indices `0, 1, ..` below `n`, in order.
pub open spec fn all_indices(n: nat) -> Seq<usize> {
    Seq::new(n, |k: int| k as usize)
}

/// `keep` names boxes of `boxes`, in the order in which they are looked at.
pub open spec fn in_rank_order(boxes: Seq<XYXY>, keep: Seq<usize>) -> bool {
    &&& forall|k: int| 0 <= k < keep.len() ==> (#[trigger] keep[k] as int) < boxes.len()
    &&& forall|a: int, b: int|
        0 <= a < b < keep.len() ==> precedes(boxes, #[trigger] keep[a] as int, #[trigger] keep[b] as int)
}

/// A number that grows along the order in which the boxes are looked at.
spec fn rank_key(boxes: Seq<XYXY>, i: int) -> int {
    (u32::MAX - boxes[i].prob) * (boxes.len() + 1) + i
}

proof fn lemma_rank_key(boxes: Seq<XYXY>, j: int, i: int)
    requires
        0 <= j < boxes.len(),
        0 <= i < boxes.len(),
        precedes(boxes, j, i),
    ensures
        0 <= rank_key(boxes, j) < rank_key(boxes, i),
{
    let n = boxes.len() + 1;
    let a = u32::MAX - boxes[j].prob;
    let b = u32::MAX - boxes[i].prob;
    assert(0 <= a * n) by (nonlinear_arith)
        requires
            0 <= a,
            0 <= n,
    ;
    if a < b {
        assert(a * n + n <= b * n) by (nonlinear_arith)
            requires
                a + 1 <= b,
                0 <= n,
        ;
    }
}

/// Two results of suppression over the same boxes hold the same indices.
proof fn lemma_same_members(
    boxes: Seq<XYXY>,
    threshold: u32,
    first: Seq<usize>,
    second: Seq<usize>,
    i: usize,
)
    requires
        is_nms(boxes, threshold, first),
        is_nms(boxes, threshold, second),
        (i as int) < boxes.len(),
    ensures
        first.contains(i) == second.contains(i),
    decreases rank_key(boxes, i as int),
{
    assert(0 <= rank_key(boxes, i as int)) by {
        assert(0 <= (u32::MAX - boxes[i as int].prob) * (boxes.len() + 1)) by (nonlinear_arith)
            requires
                0 <= u32::MAX - boxes[i as int].prob,
                0 <= boxes.len() + 1,
        ;
    }
    if falls_to(boxes, threshold, first, i as int) {
        let k = choose|k: int|
            #![trigger first[k]]
            0 <= k < first.len() && precedes(boxes, first[k] as int, i as int) && suppresses(
                boxes[first[k] as int],
                boxes[i as int],
                threshold,
            );
        lemma_rank_key(boxes, first[k] as int, i as int);
        lemma_same_members(boxes, threshold, first, second, first[k]);
        assert(first.contains(first[k]));
        let m = choose|m: int| 0 <= m < second.len() && second[m] == first[k];
        assert(precedes(boxes, second[m] as int, i as int));
        assert(falls_to(boxes, threshold, second, i as int));
    }
    if falls_to(boxes, threshold, second, i as int) {
        let k = choose|k: int|
            #![trigger second[k]]
            0 <= k < second.len() && precedes(boxes, second[k] as int, i as int) && suppresses(
                boxes[second[k] as int],
                boxes[i as int],
                threshold,
            );
        lemma_rank_key(boxes, second[k] as int, i as int);
        lemma_same_members(boxes, threshold, first, second, second[k]);
        assert(second.contains(second[k]));
        let m = choose|m: int| 0 <= m < first.len() && first[m] == second[k];
        assert(precedes(boxes, first[m] as int, i as int));
        assert(falls_to(boxes, threshold, first, i as int));
    }
}

/// Two lists in rank order that hold the same indices are one list.
proof fn lemma_rank_order_unique(boxes: Seq<XYXY>, first: Seq<usize>, second: Seq<usize>)
    requires
        in_rank_order(boxes, first),
        in_rank_order(boxes, second),
        forall|i: usize| first.contains(i) == second.contains(i),
    ensures
        first == second,
    decreases first.len(),
{
    if first.len() == 0 {
        if second.len() > 0 {
            assert(second.contains(second[0]));
            assert(first.contains(second[0]));
        }
        assert(first =~= second);
    } else {
        let x = first.last();
        assert(first.contains(x));
        assert(second.contains(x));
        let b = choose|b: int| 0 <= b < second.len() && second[b] == x;
        let y = second.last();
        assert(second.contains(y));
        assert(first.contains(y));
        let a = choose|a: int| 0 <= a < first.len() && first[a] == y;
        if b < second.len() - 1 {
            assert(precedes(boxes, second[b] as int, second[second.len() - 1] as int));
            if a < first.len() - 1 {
                assert(precedes(boxes, first[a] as int, first[first.len() - 1] as int));
            }
            assert(false);
        }
        let f = first.drop_last();
        let s = second.drop_last();
        assert forall|i: usize| f.contains(i) == s.contains(i) by {
            if f.contains(i) {
                let m = choose|m: int| 0 <= m < f.len() && f[m] == i;
                assert(first[m] == i);
                assert(precedes(boxes, first[m] as int, first[first.len() - 1] as int));
                assert(first.contains(i));
                assert(second.contains(i));
                let m2 = choose|m2: int| 0 <= m2 < second.len() && second[m2] == i;
                assert(m2 < second.len() - 1);
                assert(s[m2] == i);
            }
            if s.contains(i) {
                let m = choose|m: int| 0 <= m < s.len() && s[m] == i;
                assert(second[m] == i);
                assert(precedes(boxes, second[m] as int, second[second.len() - 1] as int));
                assert(second.contains(i));
                assert(first.contains(i));
                let m2 = choose|m2: int| 0 <= m2 < first.len() && first[m2] == i;
                assert(m2 < first.len() - 1);
                assert(f[m2] == i);
            }
        }
        assert forall|p: int, q: int| 0 <= p < q < f.len() implies precedes(
            boxes,
            #[trigger] f[p] as int,
            #[trigger] f[q] as int,
        ) by {
            assert(f[p] == first[p] && f[q] == first[q]);
        }
        assert forall|p: int, q: int| 0 <= p < q < s.len() implies precedes(
            boxes,
            #[trigger] s[p] as int,
            #[trigger] s[q] as int,
        ) by {
            assert(s[p] == second[p] && s[q] == second[q]);
        }
        assert forall|p: int| 0 <= p < f.len() implies (#[trigger] f[p] as int) < boxes.len() by {
            assert(f[p] == first[p]);
        }
        assert forall|p: int| 0 <= p < s.len() implies (#[trigger] s[p] as int) < boxes.len() by {
            assert(s[p] == second[p]);
        }
        lemma_rank_order_unique(boxes, f, s);
        assert(first =~= f.push(x));
        assert(second =~= s.push(x));
    }
}

/// Suppression has one result: its order and its members are determined by
/// the boxes and the threshold.
pub proof fn law_nms_determined(
    boxes: Seq<XYXY>,
    threshold: u32,
    first: Seq<usize>,
    second: Seq<usize>,
)
    requires
        is_nms(boxes, threshold, first),
        is_nms(boxes, threshold, second),
    ensures
        first == second,
{
    assert forall|i: usize| first.contains(i) == second.contains(i) by {
        if (i as int) < boxes.len() {
            lemma_same_members(boxes, threshold, first, second, i);
        } else {
            if first.contains(i) {
                let m = choose|m: int| 0 <= m < first.len() && first[m] == i;
                assert((first[m] as int) < boxes.len());
            }
            if second.contains(i) {
                let m = choose|m: int| 0 <= m < second.len() && second[m] == i;
                assert((second[m] as int) < boxes.len());
            }
        }
    }
    lemma_rank_order_unique(boxes, first, second);
}

/// Suppression is idempotent: run again with the same threshold on the
/// boxes that it kept, it keeps every one of them, in the same order. The
/// list of kept boxes is one that a `Vec` can hold.
pub proof fn law_nms_idempotent(
    boxes: Seq<XYXY>,
    threshold: u32,
    keep: Seq<usize>,
    again: Seq<usize>,
)
    requires
        is_nms(boxes, threshold, keep),
        is_nms(selected(boxes, keep), threshold, again),
        keep.len() <= usize::MAX,
    ensures
        again == all_indices(keep.len()),
{
    let kept = selected(boxes, keep);
    let all = all_indices(keep.len());
    assert forall|k: int| 0 <= k < all.len() implies #[trigger] all[k] == k by {}
    assert forall|a: int, b: int| 0 <= a < b < all.len() implies precedes(
        kept,
        #[trigger] all[a] as int,
        #[trigger] all[b] as int,
    ) by {
        assert(precedes(boxes, keep[a] as int, keep[b] as int));
    }
    assert forall|i: usize| (i as int) < kept.len() implies (#[trigger] all.contains(i) <==> !falls_to(
        kept,
        threshold,
        all,
        i as int,
    )) by {
        assert(all[i as int] == i);
        if falls_to(kept, threshold, all, i as int) {
            let k = choose|k: int|
                #![trigger all[k]]
                0 <= k < all.len() && precedes(kept, all[k] as int, i as int) && suppresses(
                    kept[all[k] as int],
                    kept[i as int],
                    threshold,
                );
            assert(all[k] == k);
            if k > i {
                assert(precedes(boxes, keep[i as int] as int, keep[k] as int));
            }
            assert(k < i);
            assert(precedes(boxes, keep[k] as int, keep[i as int] as int));
            assert(falls_to(boxes, threshold, keep, keep[i as int] as int));
            assert(keep.contains(keep[i as int]));
        }
    }
    law_nms_determined(kept, threshold, again, all);
}

/// Suppression works within a class only. A box that was removed fell to a
/// kept box of its own class that overlaps it by the threshold or more; and
/// a box with no box of its class before it is kept, however much it
/// overlaps boxes of other classes.
pub proof fn law_nms_within_class(boxes: Seq<XYXY>, threshold: u32, keep: Seq<usize>, i: usize)
    requires
        is_nms(boxes, threshold, keep),
        (i as int) < boxes.len(),
    ensures
        !keep.contains(i) ==> exists|k: int|
            #![trigger keep[k]]
            0 <= k < keep.len() && boxes[keep[k] as int].class_id == boxes[i as int].class_id
                && precedes(boxes, keep[k] as int, i as int) && iou_of(
                boxes[keep[k] as int],
                boxes[i as int],
            ) >= threshold,
        (forall|j: int|
            0 <= j < boxes.len() && precedes(boxes, j, i as int) ==> boxes[j].class_id
                != boxes[i as int].class_id) ==> keep.contains(i),
{
    assert(keep.contains(i) <==> !falls_to(boxes, threshold, keep, i as int));
    if !keep.contains(i) {
        let k = choose|k: int|
            #![trigger keep[k]]
            0 <= k < keep.len() && precedes(boxes, keep[k] as int, i as int) && suppresses(
                boxes[keep[k] as int],
                boxes[i as int],
                threshold,
            );
        assert(boxes[keep[k] as int].class_id == boxes[i as int].class_id);
    }
}

} // verus!
