use boquilahub::descriptor::Task;
use boquilahub::error::Failure;
use boquilahub::geometry::{XYXYc, XYXY};
use boquilahub::inference::{Detector, Reply, Request};
use boquilahub::picture::Picture;
use boquilahub::rest::encode_answer;
use boquilahub::yolo::{Candidate, Yolo};
use std::io::Cursor;

fn local(width: u32, height: u32, task: Task) -> Detector {
    Detector::Local(
        Yolo::new(
            "test".to_string(),
            String::new(),
            100_000,
            vec!["animal".to_string()],
            width,
            height,
            450_000,
            500_000,
            1,
            0,
            task,
        )
        .unwrap(),
    )
}

fn remote() -> Detector {
    Detector::Remote("http://10.0.0.7:8791".to_string())
}

fn animal(x1: i32, y1: i32, x2: i32, y2: i32, prob: u32) -> XYXYc {
    XYXYc {
        xyxy: XYXY { x1, y1, x2, y2, prob, class_id: 0 },
        label: "animal".to_string(),
        source_id: None,
        track_id: None,
    }
}

fn one_row() -> Vec<Candidate> {
    vec![Candidate { cx: 50, cy: 50, w: 20, h: 20, scores: vec![900_000] }]
}

#[test]
fn local_request_is_the_tensor_of_the_resized_picture() {
    let picture = Picture::new(2, 1, vec![1, 2, 3, 4, 5, 6]).unwrap();
    assert_eq!(
        local(2, 1, Task::Detect).request(&picture),
        Ok(Request::Run { tensor: vec![1, 4, 2, 5, 3, 6], width: 2, height: 1 })
    );
    assert_eq!(
        local(1, 2, Task::Detect).request(&Picture::new(3, 3, vec![8; 27]).unwrap()),
        Ok(Request::Run { tensor: vec![8; 6], width: 1, height: 2 })
    );
}

#[test]
fn local_request_for_a_picture_too_large_is_an_engine_failure() {
    let wide = Picture::new(0x80_0000, 0, Vec::new()).unwrap();
    assert_eq!(local(2, 2, Task::Detect).request(&wide), Err(Failure::EngineFailure));
    let tall = Picture::new(0, 0x80_0000, Vec::new()).unwrap();
    assert_eq!(local(2, 2, Task::Detect).request(&tall), Err(Failure::EngineFailure));
}

#[test]
fn remote_request_sends_the_picture_as_jpeg() {
    let picture = Picture::new(2, 2, vec![200; 12]).unwrap();
    match remote().request(&picture) {
        Ok(Request::Send { url, image }) => {
            assert_eq!(url, "http://10.0.0.7:8791");
            assert_eq!(Some(image), picture.to_jpeg());
        }
        other => panic!("{:?}", other),
    }
    let empty = Picture::new(0, 0, Vec::new()).unwrap();
    assert_eq!(remote().request(&empty), Err(Failure::ProtocolFailure));
}

#[test]
fn request_for_an_encoded_image() {
    let source = image::RgbImage::from_raw(2, 1, vec![1, 2, 3, 4, 5, 6]).unwrap();
    let mut png = Vec::new();
    source.write_to(&mut Cursor::new(&mut png), image::ImageFormat::Png).unwrap();
    assert_eq!(
        local(2, 1, Task::Detect).request_for_image(&png),
        Ok((Request::Run { tensor: vec![1, 4, 2, 5, 3, 6], width: 2, height: 1 }, Some((2, 1))))
    );
    assert_eq!(
        local(2, 1, Task::Detect).request_for_image(b"no image"),
        Err(Failure::DecodeFailure)
    );
    assert_eq!(
        remote().request_for_image(b"sent as it is"),
        Ok((
            Request::Send {
                url: "http://10.0.0.7:8791".to_string(),
                image: b"sent as it is".to_vec()
            },
            None
        ))
    );
}

#[test]
fn local_detector_decodes_the_output_of_the_model() {
    let detector = local(100, 100, Task::Detect);
    assert_eq!(
        detector.detect(Reply::Output(one_row()), 200, 100),
        Ok(vec![animal(80, 40, 120, 60, 900_000)])
    );
    assert_eq!(detector.detect(Reply::Output(Vec::new()), 200, 100), Ok(Vec::new()));
}

#[test]
fn local_detector_failures() {
    let detector = local(100, 100, Task::Detect);
    let malformed = vec![Candidate { cx: 0, cy: 0, w: 0, h: 0, scores: Vec::new() }];
    assert_eq!(detector.detect(Reply::Output(malformed), 100, 100), Err(Failure::DecodeFailure));
    assert_eq!(detector.detect(Reply::Unavailable, 100, 100), Err(Failure::EngineFailure));
    assert_eq!(detector.detect(Reply::Answer(vec![0; 4]), 100, 100), Err(Failure::EngineFailure));
    let classifier = local(100, 100, Task::Classify);
    assert_eq!(classifier.detect(Reply::Output(one_row()), 100, 100), Err(Failure::NotImplemented));
    let segmenter = local(100, 100, Task::Segment);
    assert_eq!(segmenter.detect(Reply::Output(one_row()), 100, 100), Err(Failure::NotImplemented));
}

#[test]
fn remote_detector_reads_the_answer() {
    let sent = vec![animal(80, 40, 120, 60, 900_000), animal(-5, -5, 5, 5, 1)];
    let answer = encode_answer(&sent).unwrap();
    assert_eq!(remote().detect(Reply::Answer(answer), 200, 100), Ok(sent));
}

#[test]
fn remote_detector_failures() {
    assert_eq!(remote().detect(Reply::Unavailable, 1, 1), Err(Failure::NetworkFailure));
    assert_eq!(remote().detect(Reply::Answer(Vec::new()), 1, 1), Err(Failure::ProtocolFailure));
    assert_eq!(remote().detect(Reply::Answer(vec![1, 0, 0, 0]), 1, 1), Err(Failure::ProtocolFailure));
    assert_eq!(remote().detect(Reply::Output(one_row()), 1, 1), Err(Failure::ProtocolFailure));
}

#[test]
fn both_detectors_give_the_same_detections() {
    let by_model = local(100, 100, Task::Detect).detect(Reply::Output(one_row()), 100, 100).unwrap();
    let answer = encode_answer(&by_model).unwrap();
    assert_eq!(remote().detect(Reply::Answer(answer), 100, 100), Ok(by_model));
}
