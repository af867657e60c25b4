use boquilahub::geometry::{XYXYc, SCORE_ONE, XYXY};
use boquilahub::nms::nms_indices;

fn bx(x1: i32, y1: i32, x2: i32, y2: i32, prob: u32, class_id: u16) -> XYXY {
    XYXY::new(x1, y1, x2, y2, prob, class_id).unwrap()
}

#[test]
fn new_box_keeps_its_fields() {
    let b = bx(1, 2, 3, 4, 500_000, 7);
    assert_eq!(b, XYXY { x1: 1, y1: 2, x2: 3, y2: 4, prob: 500_000, class_id: 7 });
    assert_eq!(b.get_prob(), 500_000);
    assert_eq!(b.get_class_id(), 7);
}

#[test]
fn new_box_rejects_corners_out_of_order() {
    assert_eq!(XYXY::new(3, 0, 1, 4, 0, 0), None);
    assert_eq!(XYXY::new(0, 5, 1, 4, 0, 0), None);
}

#[test]
fn new_box_rejects_probability_above_one() {
    assert_eq!(XYXY::new(0, 0, 1, 1, SCORE_ONE + 1, 0), None);
    assert!(XYXY::new(0, 0, 1, 1, SCORE_ONE, 0).is_some());
}

#[test]
fn iou_of_identical_boxes_is_one() {
    let a = bx(0, 0, 10, 10, 900_000, 0);
    assert_eq!(a.iou(&a), SCORE_ONE);
    let b = bx(-7, 3, 120, 45, 100_000, 3);
    assert_eq!(b.iou(&b.clone()), 1_000_000);
}

#[test]
fn iou_of_disjoint_boxes_is_zero() {
    let a = bx(0, 0, 10, 10, 900_000, 0);
    let b = bx(20, 20, 30, 30, 900_000, 0);
    assert_eq!(a.iou(&b), 0);
    assert_eq!(b.iou(&a), 0);
}

#[test]
fn iou_of_touching_boxes_is_zero() {
    let a = bx(0, 0, 10, 10, 900_000, 0);
    let b = bx(10, 0, 20, 10, 900_000, 0);
    assert_eq!(a.iou(&b), 0);
}

#[test]
fn iou_of_a_box_without_area_is_zero() {
    let point = bx(5, 5, 5, 5, 900_000, 0);
    let a = bx(0, 0, 10, 10, 900_000, 0);
    assert_eq!(point.iou(&point), 0);
    assert_eq!(point.iou(&a), 0);
    assert_eq!(a.iou(&point), 0);
}

#[test]
fn iou_is_intersection_over_union_rounded_down() {
    let a = bx(0, 0, 10, 10, 900_000, 0);
    let b = bx(5, 5, 15, 15, 900_000, 0);
    // 25 shared of 175 covered
    assert_eq!(a.iou(&b), 142_857);
    let half = bx(0, 0, 10, 5, 900_000, 0);
    assert_eq!(a.iou(&half), 500_000);
    assert_eq!(half.iou(&a), 500_000);
}

#[test]
fn iou_of_the_largest_box_does_not_overflow() {
    let all = bx(i32::MIN, i32::MIN, i32::MAX, i32::MAX, 0, 0);
    assert_eq!(all.iou(&all), SCORE_ONE);
    let quarter = bx(0, 0, i32::MAX, i32::MAX, 0, 0);
    assert_eq!(all.iou(&quarter), 249_999);
}

#[test]
fn iou_ignores_corners_out_of_order() {
    let odd = XYXY { x1: 10, y1: 10, x2: 0, y2: 0, prob: 0, class_id: 0 };
    let a = bx(0, 0, 10, 10, 0, 0);
    assert_eq!(odd.iou(&a), 0);
    assert_eq!(odd.iou(&odd), 0);
}

#[test]
fn classified_form_carries_the_label() {
    let classes = vec!["cat".to_string(), "dog".to_string()];
    let b = bx(1, 2, 3, 4, 600_000, 1);
    let c = b.to_xyxyc(None, None, &classes).unwrap();
    assert_eq!(
        c,
        XYXYc { xyxy: b, label: "dog".to_string(), source_id: None, track_id: None }
    );
    let tagged = b.to_xyxyc(Some("cam-1".to_string()), Some("t9".to_string()), &classes).unwrap();
    assert_eq!(tagged.source_id, Some("cam-1".to_string()));
    assert_eq!(tagged.track_id, Some("t9".to_string()));
}

#[test]
fn classified_form_rejects_unknown_class() {
    let classes = vec!["cat".to_string()];
    assert_eq!(bx(1, 2, 3, 4, 600_000, 1).to_xyxyc(None, None, &classes), None);
    assert_eq!(bx(1, 2, 3, 4, 600_000, 0).to_xyxyc(None, None, &Vec::new()), None);
}

#[test]
fn nms_of_nothing_is_nothing() {
    assert_eq!(nms_indices(&[], 500_000), Vec::<usize>::new());
}

#[test]
fn nms_orders_by_descending_probability() {
    let boxes = vec![
        bx(0, 0, 10, 10, 300_000, 0),
        bx(100, 100, 110, 110, 900_000, 0),
        bx(200, 200, 210, 210, 600_000, 0),
    ];
    assert_eq!(nms_indices(&boxes, 500_000), vec![1, 2, 0]);
}

#[test]
fn nms_breaks_ties_by_input_order() {
    let boxes = vec![
        bx(0, 0, 10, 10, 500_000, 0),
        bx(100, 100, 110, 110, 500_000, 0),
        bx(200, 200, 210, 210, 500_000, 0),
        bx(300, 300, 310, 310, 700_000, 0),
    ];
    assert_eq!(nms_indices(&boxes, 500_000), vec![3, 0, 1, 2]);
}

#[test]
fn nms_removes_overlapping_box_of_same_class() {
    let boxes = vec![bx(1, 1, 11, 11, 800_000, 0), bx(0, 0, 10, 10, 900_000, 0)];
    // 81 shared of 119 covered
    assert_eq!(boxes[0].iou(&boxes[1]), 680_672);
    assert_eq!(nms_indices(&boxes, 500_000), vec![1]);
}

#[test]
fn nms_keeps_overlapping_boxes_of_different_classes() {
    let boxes = vec![
        bx(0, 0, 10, 10, 900_000, 0),
        bx(0, 0, 10, 10, 800_000, 1),
        bx(1, 1, 11, 11, 700_000, 2),
    ];
    assert_eq!(nms_indices(&boxes, 500_000), vec![0, 1, 2]);
    assert_eq!(nms_indices(&boxes, 0), vec![0, 1, 2]);
}

#[test]
fn nms_removes_at_the_threshold_itself() {
    let boxes = vec![bx(0, 0, 10, 10, 900_000, 0), bx(0, 0, 10, 5, 800_000, 0)];
    assert_eq!(nms_indices(&boxes, 500_000), vec![0]);
    assert_eq!(nms_indices(&boxes, 500_001), vec![0, 1]);
}

#[test]
fn nms_box_removed_earlier_removes_nothing() {
    // b overlaps a and c, a and c do not overlap: a removes b, c stays
    let a = bx(0, 0, 10, 10, 900_000, 0);
    let b = bx(6, 0, 16, 10, 800_000, 0);
    let c = bx(12, 0, 22, 10, 700_000, 0);
    assert_eq!(a.iou(&b), 250_000);
    assert_eq!(b.iou(&c), 250_000);
    assert_eq!(nms_indices(&[a, b, c], 200_000), vec![0, 2]);
}

#[test]
fn nms_with_threshold_zero_keeps_one_box_of_each_class() {
    let boxes = vec![
        bx(0, 0, 10, 10, 100_000, 0),
        bx(500, 500, 510, 510, 200_000, 0),
        bx(0, 0, 10, 10, 300_000, 1),
    ];
    assert_eq!(nms_indices(&boxes, 0), vec![2, 1]);
}

#[test]
fn nms_is_idempotent() {
    let boxes = vec![
        bx(0, 0, 10, 10, 900_000, 0),
        bx(1, 1, 11, 11, 850_000, 0),
        bx(50, 50, 60, 60, 850_000, 0),
        bx(0, 0, 10, 10, 700_000, 1),
        bx(51, 51, 61, 61, 990_000, 0),
        bx(2, 2, 12, 12, 600_000, 1),
    ];
    let keep = nms_indices(&boxes, 450_000);
    assert_eq!(keep, vec![4, 0, 3]);
    let kept: Vec<XYXY> = keep.iter().map(|&i| boxes[i]).collect();
    assert_eq!(nms_indices(&kept, 450_000), vec![0, 1, 2]);
}

#[test]
fn nms_is_reproducible() {
    let boxes = vec![
        bx(0, 0, 10, 10, 500_000, 0),
        bx(0, 0, 10, 10, 500_000, 0),
        bx(0, 0, 10, 10, 500_000, 0),
    ];
    assert_eq!(nms_indices(&boxes, 900_000), vec![0]);
    assert_eq!(nms_indices(&boxes, 900_000), nms_indices(&boxes, 900_000));
}
