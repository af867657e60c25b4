use boquilahub::descriptor::{Task, AI};
use boquilahub::error::Failure;
use boquilahub::geometry::{XYXYc, XYXY};
use boquilahub::picture::Picture;
use boquilahub::rest::{decode_answer, encode_answer};
use boquilahub::yolo::{AIOutputs, Candidate, Yolo};
use std::io::Cursor;

fn model(classes: &[&str], width: u32, height: u32, task: Task) -> Yolo {
    Yolo::new(
        "test".to_string(),
        "a model for tests".to_string(),
        100_000,
        classes.iter().map(|c| c.to_string()).collect(),
        width,
        height,
        450_000,
        500_000,
        classes.len() as u32,
        0,
        task,
    )
    .unwrap()
}

fn row(cx: i32, cy: i32, w: i32, h: i32, scores: &[u32]) -> Candidate {
    Candidate { cx, cy, w, h, scores: scores.to_vec() }
}

fn found(x1: i32, y1: i32, x2: i32, y2: i32, prob: u32, class_id: u16, label: &str) -> XYXYc {
    XYXYc {
        xyxy: XYXY { x1, y1, x2, y2, prob, class_id },
        label: label.to_string(),
        source_id: None,
        track_id: None,
    }
}

fn png(width: u32, height: u32, data: Vec<u8>) -> Vec<u8> {
    let picture = image::RgbImage::from_raw(width, height, data).unwrap();
    let mut bytes = Vec::new();
    picture.write_to(&mut Cursor::new(&mut bytes), image::ImageFormat::Png).unwrap();
    bytes
}

#[test]
fn default_model_is_the_general_animal_model() {
    let yolo = Yolo::default();
    assert_eq!(
        *yolo.ai(),
        AI {
            name: "boquilanet-gen".to_string(),
            description: "Generic animal detection".to_string(),
            version: 100_000,
            classes: vec!["animal".to_string()],
            input_width: 1024,
            input_height: 1024,
            confidence_threshold: 450_000,
            nms_threshold: 500_000,
            num_classes: 1,
            num_masks: 0,
            task: Task::Detect,
        }
    );
}

#[test]
fn new_model_rejects_inconsistent_description() {
    let made = Yolo::new(
        "m".to_string(),
        String::new(),
        0,
        vec!["a".to_string()],
        640,
        640,
        450_000,
        500_000,
        2,
        0,
        Task::Detect,
    );
    assert!(made.is_none());
    assert!(Yolo::from_ai(AI { input_width: 0, ..Yolo::default().ai().clone() }).is_none());
}

#[test]
fn thresholds_can_be_tuned_within_bounds() {
    let mut yolo = Yolo::default();
    assert!(yolo.set_thresholds(300_000, 1_000_000));
    assert_eq!(yolo.ai().confidence_threshold, 300_000);
    assert_eq!(yolo.ai().nms_threshold, 1_000_000);
    assert!(!yolo.set_thresholds(1_000_001, 0));
    assert!(!yolo.set_thresholds(0, 1_000_001));
    assert_eq!(yolo.ai().confidence_threshold, 300_000);
    assert_eq!(yolo.ai().nms_threshold, 1_000_000);
}

#[test]
fn near_duplicates_leave_one_box() {
    let yolo = model(&["animal"], 1024, 1024, Task::Detect);
    let output = vec![
        row(505, 500, 200, 200, &[850_000]),
        row(500, 500, 200, 200, &[900_000]),
        row(500, 505, 200, 200, &[800_000]),
        row(495, 495, 200, 200, &[700_000]),
    ];
    assert_eq!(
        yolo.process_detect_output(&output, 1024, 1024),
        Ok(vec![found(400, 400, 600, 600, 900_000, 0, "animal")])
    );
}

#[test]
fn no_candidate_above_threshold_gives_empty_list() {
    let yolo = model(&["animal"], 1024, 1024, Task::Detect);
    assert_eq!(yolo.process_detect_output(&Vec::new(), 1024, 1024), Ok(Vec::new()));
    let output = vec![row(500, 500, 200, 200, &[449_999]), row(10, 10, 5, 5, &[0])];
    assert_eq!(yolo.process_detect_output(&output, 1024, 1024), Ok(Vec::new()));
}

#[test]
fn candidate_at_the_threshold_is_kept() {
    let yolo = model(&["animal"], 1024, 1024, Task::Detect);
    let output = vec![row(500, 500, 200, 200, &[450_000])];
    assert_eq!(
        yolo.process_detect_output(&output, 1024, 1024),
        Ok(vec![found(400, 400, 600, 600, 450_000, 0, "animal")])
    );
}

#[test]
fn center_of_model_input_is_center_of_picture() {
    let yolo = model(&["animal"], 1024, 1024, Task::Detect);
    let output = vec![row(512, 512, 100, 100, &[900_000])];
    let list = yolo.process_detect_output(&output, 2048, 1000).unwrap();
    assert_eq!(list, vec![found(924, 452, 1124, 548, 900_000, 0, "animal")]);
    assert_eq!((list[0].xyxy.x1 + list[0].xyxy.x2) / 2, 2048 / 2);
    assert_eq!((list[0].xyxy.y1 + list[0].xyxy.y2) / 2, 1000 / 2);
}

#[test]
fn boxes_are_rescaled_to_the_picture() {
    let yolo = model(&["animal"], 640, 480, Task::Detect);
    let output = vec![row(100, 100, 50, 30, &[900_000])];
    // 100 * 1920 / 640 = 300, 100 * 1080 / 480 = 225, 50 * 3 = 150, 30 * 1080 / 480 = 67
    assert_eq!(
        yolo.process_detect_output(&output, 1920, 1080),
        Ok(vec![found(225, 192, 375, 258, 900_000, 0, "animal")])
    );
}

#[test]
fn negative_centre_is_rounded_down() {
    let yolo = model(&["animal"], 1000, 1000, Task::Detect);
    let output = vec![row(-3, -1, 10, 10, &[900_000])];
    // -3 * 500 / 1000 = -1.5 -> -2, -1 * 500 / 1000 = -0.5 -> -1, 10 * 500 / 1000 = 5
    assert_eq!(
        yolo.process_detect_output(&output, 500, 500),
        Ok(vec![found(-4, -3, 0, 1, 900_000, 0, "animal")])
    );
}

#[test]
fn best_class_is_the_first_highest_score() {
    let yolo = model(&["cat", "dog", "fox"], 100, 100, Task::Detect);
    let output = vec![
        row(10, 10, 4, 4, &[500_000, 900_000, 900_000]),
        row(50, 50, 4, 4, &[600_000, 100_000, 600_000]),
        row(80, 80, 4, 4, &[0, 0, 700_000]),
    ];
    assert_eq!(
        yolo.process_detect_output(&output, 100, 100),
        Ok(vec![
            found(8, 8, 12, 12, 900_000, 1, "dog"),
            found(78, 78, 82, 82, 700_000, 2, "fox"),
            found(48, 48, 52, 52, 600_000, 0, "cat"),
        ])
    );
}

#[test]
fn overlapping_boxes_of_different_classes_both_stay() {
    let yolo = model(&["cat", "dog"], 100, 100, Task::Detect);
    let output = vec![row(50, 50, 20, 20, &[900_000, 0]), row(50, 50, 20, 20, &[0, 800_000])];
    assert_eq!(
        yolo.process_detect_output(&output, 100, 100),
        Ok(vec![found(40, 40, 60, 60, 900_000, 0, "cat"), found(40, 40, 60, 60, 800_000, 1, "dog")])
    );
}

#[test]
fn class_beyond_the_model_is_a_decode_failure() {
    let yolo = model(&["animal"], 100, 100, Task::Detect);
    let output = vec![row(50, 50, 20, 20, &[100_000, 900_000])];
    assert_eq!(yolo.process_detect_output(&output, 100, 100), Err(Failure::DecodeFailure));
    // the same candidate below the threshold is left out before its class is looked at
    let quiet = vec![row(50, 50, 20, 20, &[100_000, 400_000])];
    assert_eq!(yolo.process_detect_output(&quiet, 100, 100), Ok(Vec::new()));
}

#[test]
fn candidate_without_scores_is_a_decode_failure() {
    let yolo = model(&["animal"], 100, 100, Task::Detect);
    let output = vec![row(50, 50, 20, 20, &[900_000]), row(50, 50, 20, 20, &[])];
    assert_eq!(yolo.process_detect_output(&output, 100, 100), Err(Failure::DecodeFailure));
}

#[test]
fn negative_size_is_a_decode_failure() {
    let yolo = model(&["animal"], 100, 100, Task::Detect);
    assert_eq!(
        yolo.process_detect_output(&vec![row(50, 50, -20, 20, &[900_000])], 100, 100),
        Err(Failure::DecodeFailure)
    );
    assert_eq!(
        yolo.process_detect_output(&vec![row(50, 50, 20, -1, &[900_000])], 100, 100),
        Err(Failure::DecodeFailure)
    );
}

#[test]
fn score_above_one_is_a_decode_failure() {
    let yolo = model(&["animal"], 100, 100, Task::Detect);
    let output = vec![row(50, 50, 20, 20, &[1_000_001])];
    assert_eq!(yolo.process_detect_output(&output, 100, 100), Err(Failure::DecodeFailure));
}

#[test]
fn corner_out_of_range_is_a_decode_failure() {
    let yolo = model(&["animal"], 1, 1, Task::Detect);
    let output = vec![row(i32::MAX, 0, 2, 2, &[900_000])];
    assert_eq!(yolo.process_detect_output(&output, 1, 1), Err(Failure::DecodeFailure));
    let far = vec![row(i32::MAX, i32::MIN, i32::MAX, 0, &[900_000])];
    assert_eq!(yolo.process_detect_output(&far, u32::MAX, u32::MAX), Err(Failure::DecodeFailure));
}

#[test]
fn labels_are_looked_up_by_class() {
    let yolo = model(&["cat", "dog"], 100, 100, Task::Detect);
    let boxes = vec![
        XYXY { x1: 0, y1: 0, x2: 1, y2: 1, prob: 5, class_id: 1 },
        XYXY { x1: 2, y1: 2, x2: 3, y2: 3, prob: 6, class_id: 0 },
    ];
    assert_eq!(yolo.t(&boxes), Ok(vec![found(0, 0, 1, 1, 5, 1, "dog"), found(2, 2, 3, 3, 6, 0, "cat")]));
    let unknown = vec![XYXY { x1: 0, y1: 0, x2: 1, y2: 1, prob: 5, class_id: 2 }];
    assert_eq!(yolo.t(&unknown), Err(Failure::DecodeFailure));
}

#[test]
fn run_detects_for_a_detection_model() {
    let yolo = model(&["animal"], 100, 100, Task::Detect);
    let output = vec![row(50, 50, 20, 20, &[900_000])];
    assert_eq!(
        yolo.run(&output, 100, 100),
        Ok(AIOutputs::ObjectDetection(vec![found(40, 40, 60, 60, 900_000, 0, "animal")]))
    );
    assert_eq!(yolo.run(&vec![row(0, 0, 0, 0, &[])], 100, 100), Err(Failure::DecodeFailure));
}

#[test]
fn run_of_other_tasks_is_not_implemented() {
    let output = vec![row(50, 50, 20, 20, &[900_000])];
    let classify = model(&["animal"], 100, 100, Task::Classify);
    assert_eq!(classify.run(&output, 100, 100), Err(Failure::NotImplemented));
    let segment = model(&["animal"], 100, 100, Task::Segment);
    assert_eq!(segment.run(&output, 100, 100), Err(Failure::NotImplemented));
}

#[test]
fn picture_needs_three_bytes_for_each_pixel() {
    assert!(Picture::new(2, 2, vec![0; 12]).is_some());
    assert!(Picture::new(2, 2, vec![0; 11]).is_none());
    assert!(Picture::new(2, 2, vec![0; 13]).is_none());
    assert!(Picture::new(0, 5, Vec::new()).is_some());
    assert!(Picture::new(u32::MAX, u32::MAX, Vec::new()).is_none());
}

#[test]
fn planes_are_red_then_green_then_blue() {
    let picture = Picture::new(2, 1, vec![1, 2, 3, 4, 5, 6]).unwrap();
    assert_eq!(picture.to_planes(), vec![1, 4, 2, 5, 3, 6]);
    let square = Picture::new(2, 2, vec![10, 20, 30, 11, 21, 31, 12, 22, 32, 13, 23, 33]).unwrap();
    assert_eq!(square.to_planes(), vec![10, 11, 12, 13, 20, 21, 22, 23, 30, 31, 32, 33]);
    assert_eq!(Picture::new(0, 0, Vec::new()).unwrap().to_planes(), Vec::<u8>::new());
}

#[test]
fn decode_reads_a_png() {
    let data = vec![255, 0, 0, 0, 255, 0, 0, 0, 255, 9, 8, 7, 1, 2, 3, 4, 5, 6];
    let picture = Picture::decode(&png(3, 2, data.clone())).unwrap();
    assert_eq!(picture, Picture { width: 3, height: 2, data });
}

#[test]
fn decode_of_garbage_is_nothing() {
    assert_eq!(Picture::decode(&[]), None);
    assert_eq!(Picture::decode(b"not an image at all"), None);
    let mut cut = png(3, 2, vec![7; 18]);
    cut.truncate(20);
    assert_eq!(Picture::decode(&cut), None);
}

#[test]
fn resize_to_the_same_size_copies() {
    let picture = Picture::new(2, 1, vec![1, 2, 3, 4, 5, 6]).unwrap();
    assert_eq!(picture.resize(2, 1), picture);
}

#[test]
fn resize_takes_the_nearest_pixel() {
    let picture = Picture::new(2, 2, vec![1, 2, 3, 4, 5, 6, 7, 8, 9, 10, 11, 12]).unwrap();
    let larger = picture.resize(4, 4);
    assert_eq!((larger.width, larger.height), (4, 4));
    let a = [1, 2, 3];
    let b = [4, 5, 6];
    let c = [7, 8, 9];
    let d = [10, 11, 12];
    let rows = [[a, a, b, b], [a, a, b, b], [c, c, d, d], [c, c, d, d]];
    let expected: Vec<u8> = rows.iter().flatten().flatten().copied().collect();
    assert_eq!(larger.data, expected);
    let smaller = larger.resize(1, 3);
    assert_eq!((smaller.width, smaller.height, smaller.data.len()), (1, 3, 9));
}

#[test]
fn prepare_lays_out_the_resized_picture() {
    let yolo = model(&["animal"], 2, 1, Task::Detect);
    let same = Picture::new(2, 1, vec![1, 2, 3, 4, 5, 6]).unwrap();
    assert_eq!(yolo.prepare_input_from_imgbuf(&same), (vec![1, 4, 2, 5, 3, 6], 2, 1));
    let wide = Picture::new(4, 2, vec![9; 24]).unwrap();
    assert_eq!(yolo.prepare_input_from_imgbuf(&wide), (vec![9; 6], 4, 2));
}

#[test]
fn prepare_decodes_an_encoded_image() {
    let yolo = model(&["animal"], 2, 1, Task::Detect);
    let bytes = png(2, 1, vec![1, 2, 3, 4, 5, 6]);
    assert_eq!(yolo.prepare_input_from_buf(&bytes), Some((vec![1, 4, 2, 5, 3, 6], 2, 1)));
    assert_eq!(yolo.prepare_input_from_buf(b"garbage"), None);
}

fn animal_answer() -> Vec<u8> {
    let mut bytes = vec![1, 0, 0, 0];
    bytes.extend_from_slice(&[0, 0, 0, 0x80, 0xff, 0xff, 0xff, 0x7f]);
    bytes.extend_from_slice(&[10, 0, 0, 0x80, 10, 0, 0, 0x80]);
    bytes.extend_from_slice(&[0xa0, 0xbb, 0x0d, 0x00]);
    bytes.extend_from_slice(&[2, 0, 0, 0]);
    bytes.extend_from_slice(&[6, 0, 0, 0]);
    bytes.extend_from_slice(b"animal");
    bytes
}

#[test]
fn answer_is_written_in_the_wire_layout() {
    let list = vec![found(0, -1, 10, 10, 900_000, 2, "animal")];
    assert_eq!(encode_answer(&list), Some(animal_answer()));
    assert_eq!(encode_answer(&Vec::new()), Some(vec![0, 0, 0, 0]));
}

#[test]
fn answer_is_read_from_the_wire_layout() {
    assert_eq!(decode_answer(&animal_answer()), Ok(vec![found(0, -1, 10, 10, 900_000, 2, "animal")]));
    assert_eq!(decode_answer(&[0, 0, 0, 0]), Ok(Vec::new()));
}

#[test]
fn decode_inverts_encode() {
    let list = vec![
        found(i32::MIN, i32::MIN, i32::MAX, i32::MAX, 1_000_000, u16::MAX, "ñandú"),
        found(5, 5, 5, 5, 0, 0, ""),
        found(-30, 40, 50, 60, 123_456, 7, "zorro culpeo"),
    ];
    let bytes = encode_answer(&list).unwrap();
    assert_eq!(decode_answer(&bytes), Ok(list));
}

#[test]
fn answer_does_not_carry_identifiers() {
    let mut tagged = found(0, 0, 1, 1, 5, 0, "a");
    tagged.source_id = Some("cam".to_string());
    tagged.track_id = Some("7".to_string());
    let bytes = encode_answer(&vec![tagged]).unwrap();
    assert_eq!(decode_answer(&bytes), Ok(vec![found(0, 0, 1, 1, 5, 0, "a")]));
}

#[test]
fn encode_refuses_malformed_box() {
    assert_eq!(encode_answer(&vec![found(10, 0, 0, 10, 1, 0, "a")]), None);
    assert_eq!(encode_answer(&vec![found(0, 10, 10, 0, 1, 0, "a")]), None);
    assert_eq!(encode_answer(&vec![found(0, 0, 10, 10, 1_000_001, 0, "a")]), None);
}

#[test]
fn malformed_answer_is_a_protocol_failure() {
    let good = animal_answer();
    assert_eq!(decode_answer(&[]), Err(Failure::ProtocolFailure));
    for kept in 0..good.len() {
        assert_eq!(decode_answer(&good[..kept]), Err(Failure::ProtocolFailure));
    }
    let mut longer = good.clone();
    longer.push(0);
    assert_eq!(decode_answer(&longer), Err(Failure::ProtocolFailure));
    let mut more = good.clone();
    more[0] = 2;
    assert_eq!(decode_answer(&more), Err(Failure::ProtocolFailure));
    let mut crossed = good.clone();
    crossed[4] = 11; // x1 = 11 > x2 = 10
    assert_eq!(decode_answer(&crossed), Err(Failure::ProtocolFailure));
    let mut sure = good.clone();
    sure[23] = 1; // probability above 1.0
    assert_eq!(decode_answer(&sure), Err(Failure::ProtocolFailure));
    let mut class = good.clone();
    class[26] = 1; // class 65538
    assert_eq!(decode_answer(&class), Err(Failure::ProtocolFailure));
    let mut label = good.clone();
    label[32] = 0xff;
    assert_eq!(decode_answer(&label), Err(Failure::ProtocolFailure));
}

#[test]
fn jpeg_is_written_for_a_picture_with_extent() {
    let picture = Picture::new(2, 2, vec![200; 12]).unwrap();
    let file = picture.to_jpeg().unwrap();
    assert_eq!(&file[..2], &[0xff, 0xd8]);
    assert_eq!(&file[file.len() - 2..], &[0xff, 0xd9]);
    let back = Picture::decode(&file).unwrap();
    assert_eq!((back.width, back.height, back.data.len()), (2, 2, 12));
    assert_ne!(file, picture.data);
}

#[test]
fn jpeg_is_refused_without_extent_or_beyond_65535() {
    assert_eq!(Picture::new(0, 0, Vec::new()).unwrap().to_jpeg(), None);
    assert_eq!(Picture::new(0, 4, Vec::new()).unwrap().to_jpeg(), None);
    assert_eq!(Picture::new(65_536, 1, vec![0; 3 * 65_536]).unwrap().to_jpeg(), None);
    assert!(Picture::new(65_535, 1, vec![0; 3 * 65_535]).unwrap().to_jpeg().is_some());
}

fn marks(picture: &Picture) -> Vec<String> {
    (0..picture.height)
        .map(|y| {
            (0..picture.width)
                .map(|x| {
                    let at = 3 * (y * picture.width + x) as usize;
                    match &picture.data[at..at + 3] {
                        [255, 0, 10] => '#',
                        [7, 7, 7] => '.',
                        _ => '?',
                    }
                })
                .collect()
        })
        .collect()
}

#[test]
fn boxes_are_drawn_as_outlines() {
    let mut picture = Picture::new(5, 4, vec![7; 60]).unwrap();
    picture.draw_boxes(&vec![found(1, 0, 4, 3, 1, 0, "a")], (255, 0, 10));
    assert_eq!(marks(&picture), vec![".####", ".#..#", ".#..#", ".####"]);
    assert_eq!((picture.width, picture.height), (5, 4));
}

#[test]
fn outlines_are_cut_at_the_edge_of_the_picture() {
    let mut picture = Picture::new(4, 4, vec![7; 48]).unwrap();
    let boxes = vec![found(-1, -1, 1, 1, 1, 0, "a"), found(3, 2, 9, 9, 1, 0, "b")];
    picture.draw_boxes(&boxes, (255, 0, 10));
    assert_eq!(marks(&picture), vec![".#..", "##..", "...#", "...#"]);
}

#[test]
fn drawing_nothing_changes_nothing() {
    let mut picture = Picture::new(3, 2, (0..18).collect()).unwrap();
    picture.draw_boxes(&Vec::new(), (255, 0, 10));
    assert_eq!(picture.data, (0..18).collect::<Vec<u8>>());
    picture.draw_boxes(&vec![found(10, 10, 20, 20, 1, 0, "a")], (255, 0, 10));
    assert_eq!(picture.data, (0..18).collect::<Vec<u8>>());
    let mut empty = Picture::new(0, 0, Vec::new()).unwrap();
    empty.draw_boxes(&vec![found(0, 0, 1, 1, 1, 0, "a")], (1, 2, 3));
    assert_eq!(empty.data, Vec::<u8>::new());
}
