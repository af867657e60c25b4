//! Axis-aligned boxes on an integer grid, and how much two of them overlap.
//!
//! Probabilities, thresholds and overlap ratios are fixed-point numbers:
//! `SCORE_ONE` stands for 1.0.

use vstd::prelude::*;

verus! {

/// The fixed-point value of 1.0 for probabilities, thresholds and ratios.
pub const SCORE_ONE: u32 = 1_000_000;

/// A detection in corner form: the corners `(x1, y1)` and `(x2, y2)`, the
/// probability of the detected class, and the index of that class.
#[derive(Clone, Copy, Debug, PartialEq, Eq, Structural)]
pub struct XYXY {
    pub x1: i32,
    pub y1: i32,
    pub x2: i32,
    pub y2: i32,
    pub prob: u32,
    pub class_id: u16,
}

/// A detection in classified form: the box, the text of its class, and two
/// fields that a caller may fill with identifiers of its own.
#[derive(Clone, Debug, PartialEq, Eq)]
pub struct XYXYc {
    pub xyxy: XYXY,
    pub label: String,
    pub source_id: Option<String>,
    pub track_id: Option<String>,
}

/// The length of the interval from `lo` to `hi`, zero where it is empty.
pub open spec fn side(lo: int, hi: int) -> int {
    if hi > lo {
        hi - lo
    } else {
        0
    }
}

/// The length that the intervals `[a1, a2]` and `[b1, b2]` share.
pub open spec fn shared_len(a1: int, a2: int, b1: int, b2: int) -> int {
    side(if a1 > b1 { a1 } else { b1 }, if a2 < b2 { a2 } else { b2 })
}

/// The area that `a` and `b` share.
pub open spec fn intersection_area(a: XYXY, b: XYXY) -> int {
    shared_len(a.x1 as int, a.x2 as int, b.x1 as int, b.x2 as int) * shared_len(
        a.y1 as int,
        a.y2 as int,
        b.y1 as int,
        b.y2 as int,
    )
}

/// The area that `a` and `b` cover together.
pub open spec fn union_area(a: XYXY, b: XYXY) -> int {
    a.area() + b.area() - intersection_area(a, b)
}

/// Intersection over union of `a` and `b` in fixed point, rounded down;
/// zero where the two cover no area at all.
pub open spec fn iou_of(a: XYXY, b: XYXY) -> int {
    if union_area(a, b) <= 0 {
        0
    } else {
        intersection_area(a, b) * (SCORE_ONE as int) / union_area(a, b)
    }
}

/// No point lies inside both boxes.
pub open spec fn disjoint(a: XYXY, b: XYXY) -> bool {
    a.x2 <= b.x1 || b.x2 <= a.x1 || a.y2 <= b.y1 || b.y2 <= a.y1
}

impl XYXY {
    /// The corners are in order and the probability is at most 1.0.
    pub open spec fn valid(&self) -> bool {
        &&& self.x1 <= self.x2
        &&& self.y1 <= self.y2
        &&& self.prob <= SCORE_ONE
    }

    /// The area inside the box.
    pub open spec fn area(&self) -> int {
        side(self.x1 as int, self.x2 as int) * side(self.y1 as int, self.y2 as int)
    }

    /// Makes a box, or nothing where the corners are out of order or the
    /// probability exceeds 1.0.
    pub fn new(x1: i32, y1: i32, x2: i32, y2: i32, prob: u32, class_id: u16) -> (made: Option<XYXY>)
        ensures
            made == (if x1 <= x2 && y1 <= y2 && prob <= SCORE_ONE {
                Some(XYXY { x1, y1, x2, y2, prob, class_id })
            } else {
                None::<XYXY>
            }),
            made is Some ==> made->0.valid(),
    {
        if x1 <= x2 && y1 <= y2 && prob <= SCORE_ONE {
            Some(XYXY { x1, y1, x2, y2, prob, class_id })
        } else {
            None
        }
    }

    /// The probability of the detected class.
    pub fn get_prob(&self) -> (prob: u32)
        ensures
            prob == self.prob,
    {
        self.prob
    }

    /// The index of the detected class.
    pub fn get_class_id(&self) -> (class_id: u16)
        ensures
            class_id == self.class_id,
    {
        self.class_id
    }

    /// Intersection over union with `other`, in fixed point.
    pub fn iou(&self, other: &XYXY) -> (ratio: u32)
        ensures
            ratio == iou_of(*self, *other),
            ratio <= SCORE_ONE,
    {
        let own: u64 = rect_area(self.x1, self.y1, self.x2, self.y2);
        let others: u64 = rect_area(other.x1, other.y1, other.x2, other.y2);
        let shared_x: u64 = shared(self.x1, self.x2, other.x1, other.x2);
        let shared_y: u64 = shared(self.y1, self.y2, other.y1, other.y2);
        proof {
            lemma_intersection_bounds(*self, *other);
        }
        let inter: u64 = shared_x * shared_y;
        let union: u128 = own as u128 + others as u128 - inter as u128;
        if union == 0 {
            0
        } else {
            proof {
                assert(inter * SCORE_ONE <= 0xffff_ffff_ffff_ffff * 1_000_000) by (nonlinear_arith)
                    requires
                        inter <= 0xffff_ffff_ffff_ffff,
                        SCORE_ONE == 1_000_000,
                ;
                lemma_ratio_bound(inter as int, union as int, SCORE_ONE as int);
            }
            let scaled: u128 = inter as u128 * SCORE_ONE as u128;
            (scaled / union) as u32
        }
    }

    /// The classified form of the box under the class list `classes`, or
    /// nothing where the class index names no entry of it.
    pub fn to_xyxyc(
        &self,
        source_id: Option<String>,
        track_id: Option<String>,
        classes: &Vec<String>,
    ) -> (made: Option<XYXYc>)
        ensures
            made is Some <==> (self.class_id as int) < classes.len(),
            made matches Some(c) ==> {
                &&& c.xyxy == *self
                &&& c.label@ == classes[self.class_id as int]@
                &&& c.source_id == source_id
                &&& c.track_id == track_id
            },
    {
        let index: usize = self.class_id as usize;
        if index < classes.len() {
            Some(XYXYc { xyxy: *self, label: classes[index].clone(), source_id, track_id })
        } else {
            None
        }
    }
}

/// A product of two numbers below 2^32 is below 2^64.
proof fn lemma_area_fits(w: int, h: int)
    requires
        0 <= w <= 0xffff_ffff,
        0 <= h <= 0xffff_ffff,
    ensures
        0 <= w * h <= 0xffff_fffe_0000_0001,
{
    assert(0 <= w * h <= 0xffff_ffff * 0xffff_ffff) by (nonlinear_arith)
        requires
            0 <= w <= 0xffff_ffff,
            0 <= h <= 0xffff_ffff,
    ;
}

/// What two boxes share lies within each of them, so the union is at least
/// as large as either and as the intersection.
proof fn lemma_intersection_bounds(a: XYXY, b: XYXY)
    ensures
        0 <= intersection_area(a, b) <= a.area(),
        intersection_area(a, b) <= b.area(),
        intersection_area(a, b) <= union_area(a, b),
        a.area() <= union_area(a, b),
        a.area() <= 0xffff_fffe_0000_0001,
        b.area() <= 0xffff_fffe_0000_0001,
{
    let sx = shared_len(a.x1 as int, a.x2 as int, b.x1 as int, b.x2 as int);
    let sy = shared_len(a.y1 as int, a.y2 as int, b.y1 as int, b.y2 as int);
    let aw = side(a.x1 as int, a.x2 as int);
    let ah = side(a.y1 as int, a.y2 as int);
    let bw = side(b.x1 as int, b.x2 as int);
    let bh = side(b.y1 as int, b.y2 as int);
    assert(0 <= sx * sy <= aw * ah) by (nonlinear_arith)
        requires
            0 <= sx <= aw,
            0 <= sy <= ah,
    ;
    assert(sx * sy <= bw * bh) by (nonlinear_arith)
        requires
            0 <= sx <= bw,
            0 <= sy <= bh,
    ;
    lemma_area_fits(aw, ah);
    lemma_area_fits(bw, bh);
}

/// A part over the whole, scaled by `one`, is at most `one`.
proof fn lemma_ratio_bound(part: int, whole: int, one: int)
    requires
        0 <= part <= whole,
        0 < whole,
        0 <= one,
    ensures
        0 <= part * one / whole <= one,
{
    assert(0 <= part * one <= whole * one) by (nonlinear_arith)
        requires
            0 <= part <= whole,
            0 <= one,
    ;
    vstd::arithmetic::div_mod::lemma_div_is_ordered(part * one, whole * one, whole);
    vstd::arithmetic::div_mod::lemma_div_multiples_vanish(one, whole);
    assert(whole * one == one * whole) by (nonlinear_arith);
    vstd::arithmetic::div_mod::lemma_div_pos_is_pos(part * one, whole);
}

/// The length that two intervals between `i32` coordinates share.
fn shared(a1: i32, a2: i32, b1: i32, b2: i32) -> (len: u64)
    ensures
        len == shared_len(a1 as int, a2 as int, b1 as int, b2 as int),
        len <= side(a1 as int, a2 as int),
        len <= side(b1 as int, b2 as int),
        len <= 0xffff_ffff,
{
    let lo: i64 = if a1 > b1 { a1 as i64 } else { b1 as i64 };
    let hi: i64 = if a2 < b2 { a2 as i64 } else { b2 as i64 };
    if hi > lo {
        (hi - lo) as u64
    } else {
        0
    }
}

/// The area between two corners.
fn rect_area(x1: i32, y1: i32, x2: i32, y2: i32) -> (area: u64)
    ensures
        area == side(x1 as int, x2 as int) * side(y1 as int, y2 as int),
{
    let w: u64 = if x2 > x1 { (x2 as i64 - x1 as i64) as u64 } else { 0 };
    let h: u64 = if y2 > y1 { (y2 as i64 - y1 as i64) as u64 } else { 0 };
    proof {
        lemma_area_fits(w as int, h as int);
    }
    w * h
}

/// A box of positive area overlaps itself completely.
pub proof fn law_iou_identical(a: XYXY)
    requires
        a.area() > 0,
    ensures
        iou_of(a, a) == SCORE_ONE,
{
    let n = a.area();
    assert(intersection_area(a, a) == n);
    assert(union_area(a, a) == n);
    vstd::arithmetic::div_mod::lemma_div_multiples_vanish(SCORE_ONE as int, n);
    assert(n * (SCORE_ONE as int) == (SCORE_ONE as int) * n) by (nonlinear_arith);
}

/// Boxes that share no interior point do not overlap, and neither does a
/// box without area with any other.
pub proof fn law_iou_disjoint(a: XYXY, b: XYXY)
    requires
        disjoint(a, b) || a.area() == 0 || b.area() == 0,
    ensures
        iou_of(a, b) == 0,
{
    lemma_intersection_bounds(a, b);
    let sx = shared_len(a.x1 as int, a.x2 as int, b.x1 as int, b.x2 as int);
    let sy = shared_len(a.y1 as int, a.y2 as int, b.y1 as int, b.y2 as int);
    if disjoint(a, b) {
        assert(sx == 0 || sy == 0);
        assert(sx * sy == 0) by (nonlinear_arith)
            requires
                sx == 0 || sy == 0,
        ;
    }
    assert(intersection_area(a, b) == 0);
    assert(0 * (SCORE_ONE as int) == 0);
    if union_area(a, b) > 0 {
        vstd::arithmetic::div_mod::lemma_div_basics(union_area(a, b));
    }
}

/// Overlap does not depend on the order of the two boxes, and lies between
/// 0.0 and 1.0.
pub proof fn law_iou_symmetric(a: XYXY, b: XYXY)
    ensures
        iou_of(a, b) == iou_of(b, a),
        0 <= iou_of(a, b) <= SCORE_ONE,
{
    let sx = shared_len(a.x1 as int, a.x2 as int, b.x1 as int, b.x2 as int);
    let sy = shared_len(a.y1 as int, a.y2 as int, b.y1 as int, b.y2 as int);
    assert(sx == shared_len(b.x1 as int, b.x2 as int, a.x1 as int, a.x2 as int));
    assert(sy == shared_len(b.y1 as int, b.y2 as int, a.y1 as int, a.y2 as int));
    assert(intersection_area(a, b) == intersection_area(b, a));
    lemma_intersection_bounds(a, b);
    if union_area(a, b) > 0 {
        lemma_ratio_bound(intersection_area(a, b), union_area(a, b), SCORE_ONE as int);
    }
}

} // verus!
