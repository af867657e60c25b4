//! The local detector: how a picture becomes the input of the model, and
//! how what the model puts out becomes detections.
//!
//! The model itself runs outside this library. It takes the colour planes
//! that `prepare_input_from_imgbuf` lays out and gives, for each candidate,
//! a centre, a size and one score for each class, all on the model's input
//! grid.

use crate::descriptor::{AIView, Task, AI};
use crate::error::Failure;
use crate::geometry::{XYXYc, SCORE_ONE, XYXY};
use crate::nms::{is_nms, law_nms_determined, nms_indices, selected};
use crate::picture::{decoded_rgb8, planes, resize_fits, resized_rgb8, Picture};
use vstd::prelude::*;

verus! {

/// One candidate of the model's output: centre, width and height on the
/// model's input grid, and the score of each class in fixed point.
#[derive(Clone, Debug, PartialEq, Eq)]
pub struct Candidate {
    pub cx: i32,
    pub cy: i32,
    pub w: i32,
    pub h: i32,
    pub scores: Vec<u32>,
}

/// What a model gives for a picture, by task. Only detection is carried
/// out; the other two are named for the tasks a model may declare.
#[derive(Clone, Debug, PartialEq, Eq)]
pub enum AIOutputs {
    ObjectDetection(Vec<XYXYc>),
    Classification,
    Segmentation,
}

/// A detector that runs on this machine.
#[derive(Debug)]
pub struct Yolo {
    ai: AI,
}

/// The index of the highest score, the first of them where several are
/// equal.
pub open spec fn best_class(scores: Seq<u32>) -> int
    decreases scores.len(),
{
    if scores.len() <= 1 {
        0
    } else {
        let before = best_class(scores.drop_last());
        if scores.last() > scores[before] {
            scores.len() - 1
        } else {
            before
        }
    }
}

/// A length `value` on a grid `from` wide, on a grid `to` wide: rounded
/// down.
pub open spec fn scaled(value: int, from: int, to: int) -> int {
    value * to / from
}

/// The box of a candidate in a picture of `width` by `height`: the class
/// with the best score, and centre and size carried over from the model's
/// grid to the picture's. There is none where the class is not one of the
/// model's, the score exceeds 1.0, a size is negative or a corner lies
/// outside the range of coordinates.
pub open spec fn box_of(row: Candidate, model: AIView, width: u32, height: u32) -> Option<XYXY> {
    let class = best_class(row.scores@);
    let prob = row.scores@[class];
    let xc = scaled(row.cx as int, model.input_width as int, width as int);
    let yc = scaled(row.cy as int, model.input_height as int, height as int);
    let w = scaled(row.w as int, model.input_width as int, width as int);
    let h = scaled(row.h as int, model.input_height as int, height as int);
    if class < model.classes.len() && class <= u16::MAX && prob <= SCORE_ONE && w >= 0 && h >= 0
        && i32::MIN <= xc - w / 2 && xc + w / 2 <= i32::MAX && i32::MIN <= yc - h / 2 && yc + h / 2
        <= i32::MAX {
        Some(
            XYXY {
                x1: (xc - w / 2) as i32,
                y1: (yc - h / 2) as i32,
                x2: (xc + w / 2) as i32,
                y2: (yc + h / 2) as i32,
                prob,
                class_id: class as u16,
            },
        )
    } else {
        None
    }
}

/// The boxes of the candidates whose best score reaches the model's
/// confidence threshold, in the order of the candidates. There are none
/// where a candidate has no scores or one that reaches the threshold has
/// no box.
pub open spec fn candidate_boxes(
    rows: Seq<Candidate>,
    model: AIView,
    width: u32,
    height: u32,
) -> Option<Seq<XYXY>>
    decreases rows.len(),
{
    if rows.len() == 0 {
        Some(Seq::empty())
    } else {
        let row = rows.last();
        match candidate_boxes(rows.drop_last(), model, width, height) {
            None => None,
            Some(boxes) => if row.scores@.len() == 0 {
                None
            } else if row.scores@[best_class(row.scores@)] < model.confidence_threshold {
                Some(boxes)
            } else {
                match box_of(row, model, width, height) {
                    Some(found) => Some(boxes.push(found)),
                    None => None,
                }
            },
        }
    }
}

/// What greedy suppression keeps of `boxes`.
pub open spec fn nms_of(boxes: Seq<XYXY>, threshold: u32) -> Seq<usize> {
    choose|keep: Seq<usize>| is_nms(boxes, threshold, keep)
}

/// `list` holds `boxes` in classified form: each box with the label that
/// `classes` has for its class, and no identifiers.
pub open spec fn labelled_as(list: Seq<XYXYc>, boxes: Seq<XYXY>, classes: Seq<Seq<char>>) -> bool {
    &&& list.len() == boxes.len()
    &&& forall|k: int|
        0 <= k < list.len() ==> {
            &&& (#[trigger] list[k]).xyxy == boxes[k]
            &&& list[k].label@ == classes[boxes[k].class_id as int]
            &&& list[k].source_id is None
            &&& list[k].track_id is None
        }
}

/// The detections for the output `rows` of the model on a picture of
/// `width` by `height`: the boxes of the candidates that reach the
/// confidence threshold, less those that suppression removes. There are
/// none where the output is malformed.
pub open spec fn detections_of(
    rows: Seq<Candidate>,
    model: AIView,
    width: u32,
    height: u32,
) -> Option<Seq<XYXY>> {
    match candidate_boxes(rows, model, width, height) {
        Some(boxes) => Some(selected(boxes, nms_of(boxes, model.nms_threshold))),
        None => None,
    }
}

/// A failure among the first candidates is a failure of the whole output.
proof fn lemma_candidate_boxes_fails(
    rows: Seq<Candidate>,
    model: AIView,
    width: u32,
    height: u32,
    n: int,
)
    requires
        0 <= n <= rows.len(),
        candidate_boxes(rows.take(n), model, width, height) is None,
    ensures
        candidate_boxes(rows, model, width, height) is None,
    decreases rows.len(),
{
    if n == rows.len() {
        assert(rows.take(n) =~= rows);
    } else {
        assert(rows.drop_last().take(n) =~= rows.take(n));
        lemma_candidate_boxes_fails(rows.drop_last(), model, width, height, n);
    }
}

/// Rounding down the quotient of a negative number.
proof fn lemma_floor_of_negative(a: int, d: int)
    requires
        a > 0,
        d > 0,
    ensures
        (-a) / d == -((a + d - 1) / d),
{
    let q = (a + d - 1) / d;
    let s = (a + d - 1) % d;
    vstd::arithmetic::div_mod::lemma_fundamental_div_mod(a + d - 1, d);
    assert(-a == d * (-q) + (d - 1 - s)) by (nonlinear_arith)
        requires
            a + d - 1 == d * q + s,
    ;
    vstd::arithmetic::div_mod::lemma_fundamental_div_mod_converse(-a, d, -q, d - 1 - s);
}

/// `value * to / from`, rounded down.
fn scale(value: i32, from: u32, to: u32) -> (out: i64)
    requires
        from > 0,
    ensures
        out == scaled(value as int, from as int, to as int),
        -0x8000_0000_0000_0000 < out < 0x8000_0000_0000_0000,
{
    assert(-0x8000_0000 * 0xffff_ffff <= value * to <= 0x8000_0000 * 0xffff_ffff)
        by (nonlinear_arith)
        requires
            -0x8000_0000 <= value <= 0x7fff_ffff,
            0 <= to <= 0xffff_ffff,
    ;
    let product: i64 = value as i64 * to as i64;
    if product >= 0 {
        proof {
            let p = product as int;
            let d = from as int;
            assert(0 <= p / d <= p) by (nonlinear_arith)
                requires
                    p >= 0,
                    d >= 1,
            ;
        }
        (product as u64 / from as u64) as i64
    } else {
        let positive: u64 = (-product) as u64;
        let up: u64 = (positive + (from as u64 - 1)) / from as u64;
        proof {
            lemma_floor_of_negative(positive as int, from as int);
            let p = positive as int;
            let d = from as int;
            assert(0 <= (p + d - 1) / d <= p) by (nonlinear_arith)
                requires
                    p >= 1,
                    d >= 1,
            ;
        }
        -(up as i64)
    }
}

/// The index of the highest score.
fn best_class_of(scores: &Vec<u32>) -> (best: usize)
    requires
        scores.len() > 0,
    ensures
        best == best_class(scores@),
        best < scores.len(),
{
    let mut best: usize = 0;
    let mut i: usize = 1;
    assert(scores@.take(1).len() == 1);
    while i < scores.len()
        invariant
            1 <= i <= scores.len(),
            best < i,
            best == best_class(scores@.take(i as int)),
        decreases scores.len() - i,
    {
        proof {
            assert(scores@.take(i + 1).drop_last() =~= scores@.take(i as int));
            assert(scores@.take(i + 1).last() == scores@[i as int]);
            assert(scores@.take(i as int)[best as int] == scores@[best as int]);
        }
        if scores[i] > scores[best] {
            best = i;
        }
        i += 1;
    }
    assert(scores@.take(i as int) =~= scores@);
    best
}

impl Yolo {
    #[verifier::type_invariant]
    spec fn consistent(self) -> bool {
        self.ai@.sane()
    }

    /// The description of the model that the detector runs.
    pub closed spec fn descriptor(&self) -> AIView {
        self.ai@
    }

    /// A detector for the model that `ai` describes, or nothing where the
    /// description is inconsistent.
    pub fn from_ai(ai: AI) -> (made: Option<Yolo>)
        ensures
            made is Some <==> ai@.sane(),
            made matches Some(yolo) ==> yolo.descriptor() == ai@,
    {
        if ai.is_sane() {
            Some(Yolo { ai })
        } else {
            None
        }
    }

    /// A detector for the model with the given description, or nothing
    /// where the description is inconsistent.
    pub fn new(
        name: String,
        description: String,
        version: u32,
        classes: Vec<String>,
        input_width: u32,
        input_height: u32,
        confidence_threshold: u32,
        nms_threshold: u32,
        num_classes: u32,
        num_masks: u32,
        task: Task,
    ) -> (made: Option<Yolo>)
        ensures
            made is Some <==> (AI {
                name,
                description,
                version,
                classes,
                input_width,
                input_height,
                confidence_threshold,
                nms_threshold,
                num_classes,
                num_masks,
                task,
            })@.sane(),
            made matches Some(yolo) ==> yolo.descriptor() == (AI {
                name,
                description,
                version,
                classes,
                input_width,
                input_height,
                confidence_threshold,
                nms_threshold,
                num_classes,
                num_masks,
                task,
            })@,
    {
        Yolo::from_ai(
            AI {
                name,
                description,
                version,
                classes,
                input_width,
                input_height,
                confidence_threshold,
                nms_threshold,
                num_classes,
                num_masks,
                task,
            },
        )
    }

    /// The detector for the general animal model: one class, an input of
    /// 1024 by 1024, a confidence threshold of 0.45 and a suppression
    /// threshold of 0.5.
    pub fn default() -> (yolo: Yolo)
        ensures
            yolo.descriptor() == (AIView {
                name: "boquilanet-gen"@,
                description: "Generic animal detection"@,
                version: 100_000,
                classes: seq!["animal"@],
                input_width: 1024,
                input_height: 1024,
                confidence_threshold: 450_000,
                nms_threshold: 500_000,
                num_classes: 1,
                num_masks: 0,
                task: Task::Detect,
            }),
    {
        let mut classes: Vec<String> = Vec::new();
        classes.push("animal".to_owned());
        let ai = AI {
            name: "boquilanet-gen".to_owned(),
            description: "Generic animal detection".to_owned(),
            version: 100_000,
            classes,
            input_width: 1024,
            input_height: 1024,
            confidence_threshold: 450_000,
            nms_threshold: 500_000,
            num_classes: 1,
            num_masks: 0,
            task: Task::Detect,
        };
        assert(ai@.classes =~= seq!["animal"@]);
        Yolo { ai }
    }

    /// The description of the model, which is consistent.
    pub fn ai(&self) -> (ai: &AI)
        ensures
            ai@ == self.descriptor(),
            ai@.sane(),
    {
        proof {
            use_type_invariant(self);
        }
        &self.ai
    }

    /// Sets the two thresholds, each between 0.0 and 1.0; changes nothing
    /// and says so where one is not.
    pub fn set_thresholds(&mut self, confidence_threshold: u32, nms_threshold: u32) -> (set: bool)
        ensures
            set == (confidence_threshold <= SCORE_ONE && nms_threshold <= SCORE_ONE),
            set ==> final(self).descriptor() == (AIView {
                confidence_threshold,
                nms_threshold,
                ..old(self).descriptor()
            }),
            !set ==> final(self).descriptor() == old(self).descriptor(),
    {
        proof {
            use_type_invariant(&*self);
        }
        if confidence_threshold <= SCORE_ONE && nms_threshold <= SCORE_ONE {
            self.ai.confidence_threshold = confidence_threshold;
            self.ai.nms_threshold = nms_threshold;
            true
        } else {
            false
        }
    }

    /// The input of the model for an encoded image: the picture is decoded
    /// and laid out as `prepare_input_from_imgbuf` does. Gives nothing
    /// where the bytes are no image, or the image is too large to resize
    /// (see `resize_fits`).
    pub fn prepare_input_from_buf(&self, buf: &[u8]) -> (input: Option<(Vec<u8>, u32, u32)>)
        ensures
            match decoded_rgb8(buf@) {
                Some((width, height, data)) => if resize_fits(
                    width,
                    height,
                    self.descriptor().input_width,
                    self.descriptor().input_height,
                ) {
                    input matches Some((tensor, w, h)) && w == width && h == height && tensor@
                        == planes(
                        resized_rgb8(
                            data.take(3 * (width * height)),
                            width,
                            height,
                            self.descriptor().input_width,
                            self.descriptor().input_height,
                        ),
                    )
                } else {
                    input is None
                },
                None => input is None,
            },
    {
        match Picture::decode(buf) {
            None => None,
            Some(picture) => {
                let rows: u128 = self.ai.input_height as u128;
                assert(picture.width * self.ai.input_height <= 0xffff_ffff * 0xffff_ffff)
                    by (nonlinear_arith)
                    requires
                        picture.width <= 0xffff_ffff,
                        self.ai.input_height <= 0xffff_ffff,
                ;
                assert(self.ai.input_width * self.ai.input_height <= 0xffff_ffff * 0xffff_ffff)
                    by (nonlinear_arith)
                    requires
                        self.ai.input_width <= 0xffff_ffff,
                        self.ai.input_height <= 0xffff_ffff,
                ;
                if picture.width < 0x80_0000 && picture.height < 0x80_0000 && 16 * (
                picture.width as u128 * rows) <= isize::MAX as u128 && 16 * (self.ai.input_width as u128
                    * rows) <= isize::MAX as u128 {
                    Some(self.prepare_input_from_imgbuf(&picture))
                } else {
                    None
                }
            },
        }
    }

    /// The input of the model for a picture: the picture resized to the
    /// model's input size, as colour planes (red, green, blue), with the
    /// width and the height that the picture had. The model takes each
    /// byte divided by 255.
    pub fn prepare_input_from_imgbuf(&self, img: &Picture) -> (input: (Vec<u8>, u32, u32))
        requires
            img.valid(),
            resize_fits(
                img.width,
                img.height,
                self.descriptor().input_width,
                self.descriptor().input_height,
            ),
        ensures
            input.0@ == planes(
                resized_rgb8(
                    img.data@,
                    img.width,
                    img.height,
                    self.descriptor().input_width,
                    self.descriptor().input_height,
                ),
            ),
            input.0@.len() == 3 * (self.descriptor().input_width * self.descriptor().input_height),
            input.1 == img.width,
            input.2 == img.height,
    {
        let resized = img.resize(self.ai.input_width, self.ai.input_height);
        (resized.to_planes(), img.width, img.height)
    }

    /// The box of one candidate that reaches the confidence threshold.
    fn decode_box(&self, row: &Candidate, img_width: u32, img_height: u32) -> (found: Option<XYXY>)
        requires
            row.scores@.len() > 0,
        ensures
            found == box_of(*row, self.descriptor(), img_width, img_height),
    {
        proof {
            use_type_invariant(self);
        }
        let class = best_class_of(&row.scores);
        let prob = row.scores[class];
        let xc = scale(row.cx, self.ai.input_width, img_width) as i128;
        let yc = scale(row.cy, self.ai.input_height, img_height) as i128;
        let w = scale(row.w, self.ai.input_width, img_width);
        let h = scale(row.h, self.ai.input_height, img_height);
        if class >= self.ai.classes.len() || class > 0xffff || prob > SCORE_ONE || w < 0 || h < 0 {
            return None;
        }
        let half_w = (w as u64 / 2) as i128;
        let half_h = (h as u64 / 2) as i128;
        let x1 = xc - half_w;
        let x2 = xc + half_w;
        let y1 = yc - half_h;
        let y2 = yc + half_h;
        if x1 < -0x8000_0000 || x2 > 0x7fff_ffff || y1 < -0x8000_0000 || y2 > 0x7fff_ffff {
            return None;
        }
        Some(
            XYXY {
                x1: x1 as i32,
                y1: y1 as i32,
                x2: x2 as i32,
                y2: y2 as i32,
                prob,
                class_id: class as u16,
            },
        )
    }

    /// The classified form of each box: the box with the label of its
    /// class. Fails with `DecodeFailure` where a box names a class that the
    /// model does not have.
    pub fn t(&self, boxes: &Vec<XYXY>) -> (labelled: Result<Vec<XYXYc>, Failure>)
        ensures
            match labelled {
                Ok(list) => labelled_as(list@, boxes@, self.descriptor().classes) && forall|k: int|
                    0 <= k < boxes.len() ==> (#[trigger] boxes[k]).class_id
                        < self.descriptor().classes.len(),
                Err(failure) => failure == Failure::DecodeFailure && exists|k: int|
                    0 <= k < boxes.len() && (#[trigger] boxes[k]).class_id
                        >= self.descriptor().classes.len(),
            },
    {
        let mut list: Vec<XYXYc> = Vec::new();
        let mut k: usize = 0;
        while k < boxes.len()
            invariant
                k <= boxes.len(),
                labelled_as(list@, boxes@.take(k as int), self.descriptor().classes),
                forall|j: int|
                    0 <= j < k ==> (#[trigger] boxes[j]).class_id
                        < self.descriptor().classes.len(),
            decreases boxes.len() - k,
        {
            match boxes[k].to_xyxyc(None, None, &self.ai.classes) {
                Some(classified) => {
                    list.push(classified);
                },
                None => {
                    return Err(Failure::DecodeFailure);
                },
            }
            k += 1;
        }
        assert(boxes@.take(k as int) =~= boxes@);
        Ok(list)
    }

    /// The detections for the output of the model on a picture of
    /// `img_width` by `img_height`. Candidates whose best score is below
    /// the confidence threshold are left out; the boxes of the others are
    /// carried over to the picture's grid, thinned by suppression with the
    /// model's threshold, and labelled. Fails with `DecodeFailure` where a
    /// candidate has no scores, or one that reaches the threshold names no
    /// class of the model or has no box.
    pub fn process_detect_output(
        &self,
        output: &Vec<Candidate>,
        img_width: u32,
        img_height: u32,
    ) -> (found: Result<Vec<XYXYc>, Failure>)
        ensures
            match found {
                Ok(list) => detections_of(output@, self.descriptor(), img_width, img_height)
                    matches Some(boxes) && labelled_as(list@, boxes, self.descriptor().classes),
                Err(failure) => failure == Failure::DecodeFailure && detections_of(
                    output@,
                    self.descriptor(),
                    img_width,
                    img_height,
                ) is None,
            },
    {
        let ghost model = self.descriptor();
        let mut boxes: Vec<XYXY> = Vec::new();
        let mut i: usize = 0;
        assert(output@.take(0) =~= Seq::empty());
        while i < output.len()
            invariant
                i <= output.len(),
                model == self.descriptor(),
                candidate_boxes(output@.take(i as int), model, img_width, img_height) == Some(
                    boxes@,
                ),
                forall|j: int|
                    0 <= j < boxes.len() ==> (#[trigger] boxes[j]).class_id < model.classes.len(),
            decreases output.len() - i,
        {
            let row = &output[i];
            proof {
                assert(output@.take(i + 1).drop_last() =~= output@.take(i as int));
                assert(output@.take(i + 1).last() == output@[i as int]);
            }
            if row.scores.len() == 0 {
                proof {
                    lemma_candidate_boxes_fails(output@, model, img_width, img_height, i + 1);
                }
                return Err(Failure::DecodeFailure);
            }
            let best = best_class_of(&row.scores);
            if row.scores[best] >= self.ai.confidence_threshold {
                match self.decode_box(row, img_width, img_height) {
                    Some(found) => {
                        boxes.push(found);
                    },
                    None => {
                        proof {
                            lemma_candidate_boxes_fails(
                                output@,
                                model,
                                img_width,
                                img_height,
                                i + 1,
                            );
                        }
                        return Err(Failure::DecodeFailure);
                    },
                }
            }
            i += 1;
        }
        assert(output@.take(i as int) =~= output@);
        let keep = nms_indices(boxes.as_slice(), self.ai.nms_threshold);
        proof {
            law_nms_determined(
                boxes@,
                model.nms_threshold,
                keep@,
                nms_of(boxes@, model.nms_threshold),
            );
        }
        let mut kept: Vec<XYXY> = Vec::new();
        let mut k: usize = 0;
        while k < keep.len()
            invariant
                k <= keep.len(),
                is_nms(boxes@, model.nms_threshold, keep@),
                kept@ == selected(boxes@, keep@).take(k as int),
                forall|j: int|
                    0 <= j < boxes.len() ==> (#[trigger] boxes[j]).class_id < model.classes.len(),
            decreases keep.len() - k,
        {
            kept.push(boxes[keep[k]]);
            assert(kept@ =~= selected(boxes@, keep@).take(k + 1));
            k += 1;
        }
        assert(kept@ =~= selected(boxes@, keep@));
        match self.t(&kept) {
            Ok(list) => Ok(list),
            Err(_) => {
                proof {
                    let bad = choose|bad: int|
                        0 <= bad < kept.len() && (#[trigger] kept[bad]).class_id
                            >= model.classes.len();
                    assert(kept[bad] == boxes[keep[bad] as int]);
                }
                Err(Failure::DecodeFailure)
            },
        }
    }

    /// What the model's output means for its task. For detection these are
    /// the detections of `process_detect_output`; the other tasks fail
    /// with `NotImplemented`.
    pub fn run(&self, output: &Vec<Candidate>, img_width: u32, img_height: u32) -> (outputs: Result<
        AIOutputs,
        Failure,
    >)
        ensures
            match outputs {
                Ok(AIOutputs::ObjectDetection(list)) => {
                    &&& self.descriptor().task == Task::Detect
                    &&& detections_of(output@, self.descriptor(), img_width, img_height)
                        matches Some(boxes)
                    &&& labelled_as(list@, boxes, self.descriptor().classes)
                },
                Ok(_) => false,
                Err(failure) => if self.descriptor().task == Task::Detect {
                    failure == Failure::DecodeFailure && detections_of(
                        output@,
                        self.descriptor(),
                        img_width,
                        img_height,
                    ) is None
                } else {
                    failure == Failure::NotImplemented
                },
            },
    {
        match self.ai.task {
            Task::Detect => match self.process_detect_output(output, img_width, img_height) {
                Ok(list) => Ok(AIOutputs::ObjectDetection(list)),
                Err(failure) => Err(failure),
            },
            Task::Classify => Err(Failure::NotImplemented),
            Task::Segment => Err(Failure::NotImplemented),
        }
    }
}

/// The best class is a class of the candidate, no score is higher than
/// its score, and every score before it is lower.
pub proof fn law_best_class_is_first_maximum(scores: Seq<u32>)
    requires
        scores.len() > 0,
    ensures
        0 <= best_class(scores) < scores.len(),
        forall|j: int| 0 <= j < scores.len() ==> #[trigger] scores[j] <= scores[best_class(scores)],
        forall|j: int| 0 <= j < best_class(scores) ==> #[trigger] scores[j] < scores[best_class(scores)],
    decreases scores.len(),
{
    if scores.len() > 1 {
        let front = scores.drop_last();
        law_best_class_is_first_maximum(front);
        assert forall|j: int| 0 <= j < scores.len() implies #[trigger] scores[j] <= scores[best_class(
            scores,
        )] by {
            if j < front.len() {
                assert(front[j] == scores[j]);
            }
        }
        assert forall|j: int| 0 <= j < best_class(scores) implies #[trigger] scores[j] < scores[best_class(
            scores,
        )] by {
            assert(front[j] == scores[j]);
        }
    }
}

/// The middle of the model's grid is carried to the middle of the
/// picture's grid.
pub proof fn law_center_rescales(center: int, from: int, to: int)
    requires
        from > 0,
        to >= 0,
        2 * center == from,
    ensures
        scaled(center, from, to) == to / 2,
{
    let q = to / 2;
    let r = to % 2;
    vstd::arithmetic::div_mod::lemma_fundamental_div_mod(to, 2);
    assert(center * to == from * q + center * r) by (nonlinear_arith)
        requires
            to == 2 * q + r,
            2 * center == from,
    ;
    assert(0 <= center * r < from) by (nonlinear_arith)
        requires
            0 <= r < 2,
            center > 0,
            2 * center == from,
    ;
    vstd::arithmetic::div_mod::lemma_fundamental_div_mod_converse(center * to, from, q, center * r);
}

/// A candidate centred on the middle of the model's input has a box
/// centred on the middle of the picture.
pub proof fn law_centered_candidate(row: Candidate, model: AIView, width: u32, height: u32)
    requires
        model.input_width > 0,
        model.input_height > 0,
        2 * row.cx == model.input_width,
        2 * row.cy == model.input_height,
        box_of(row, model, width, height) is Some,
    ensures
        ({
            let found = box_of(row, model, width, height)->0;
            found.x1 + found.x2 == 2 * (width / 2) && found.y1 + found.y2 == 2 * (height / 2)
        }),
{
    law_center_rescales(row.cx as int, model.input_width as int, width as int);
    law_center_rescales(row.cy as int, model.input_height as int, height as int);
}

} // verus!
