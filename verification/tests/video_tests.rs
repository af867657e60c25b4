use boquilahub::error::Failure;
use boquilahub::geometry::{XYXYc, XYXY};
use boquilahub::video_file::{get_output_path, StreamState, VideofileProcessor};

fn boxes(tag: i32) -> Vec<XYXYc> {
    vec![XYXYc {
        xyxy: XYXY { x1: tag, y1: tag, x2: tag + 10, y2: tag + 10, prob: 900_000, class_id: 0 },
        label: "animal".to_string(),
        source_id: None,
        track_id: None,
    }]
}

#[test]
fn output_path_puts_prefix_before_the_file_name() {
    assert_eq!(get_output_path("C:\\videos\\clip.mp4"), "C:\\videos\\predict_clip.mp4");
    assert_eq!(get_output_path("clip.mp4"), "predict_clip.mp4");
    assert_eq!(get_output_path("dir\\"), "dir\\predict_");
    assert_eq!(get_output_path("\\clip.mp4"), "\\predict_clip.mp4");
    assert_eq!(get_output_path(""), "predict_");
    assert_eq!(get_output_path("a/b/clip.mp4"), "predict_a/b/clip.mp4");
    assert_eq!(get_output_path("vídeos\\ñandú.mp4"), "vídeos\\predict_ñandú.mp4");
}

#[test]
fn new_run_rejects_interval_zero() {
    assert!(VideofileProcessor::new(Some(12), 0).is_none());
    assert!(VideofileProcessor::new(None, 1).is_some());
}

#[test]
fn new_run_is_initial() {
    let run = VideofileProcessor::new(Some(12), 5).unwrap();
    assert_eq!(run.get_state(), StreamState::Init);
    assert_eq!(run.get_n_frames(), Some(12));
    assert_eq!(run.progress(), (0, 0));
    assert_eq!(run.annotations(), None);
    assert!(run.wants_detection());
    assert_eq!(VideofileProcessor::new(None, 5).unwrap().get_n_frames(), None);
}

#[test]
fn detector_runs_on_frames_1_6_11_of_12() {
    let mut run = VideofileProcessor::new(Some(12), 5).unwrap();
    let mut detected_on = Vec::new();
    let mut drawn = Vec::new();
    for frame in 1..=12 {
        let fresh = if run.wants_detection() {
            detected_on.push(frame);
            Some(boxes(frame))
        } else {
            None
        };
        assert_eq!(run.run_exp(fresh), Ok(()));
        assert_eq!(run.get_state(), StreamState::Streaming);
        drawn.push(run.annotations().unwrap()[0].xyxy.x1);
    }
    assert_eq!(detected_on, vec![1, 6, 11]);
    assert_eq!(drawn, vec![1, 1, 1, 1, 1, 6, 6, 6, 6, 6, 11, 11]);
    assert_eq!(run.progress(), (12, 3));
    run.end_of_stream();
    assert_eq!(run.get_state(), StreamState::Drained);
    run.close();
    assert_eq!(run.get_state(), StreamState::Closed);
}

#[test]
fn detector_runs_on_every_frame_with_interval_one() {
    let mut run = VideofileProcessor::new(None, 1).unwrap();
    for frame in 1..=4 {
        assert!(run.wants_detection());
        assert_eq!(run.run_exp(Some(boxes(frame))), Ok(()));
        assert_eq!(run.annotations(), Some(&boxes(frame)));
        assert_eq!(run.progress(), (frame as u64, frame as u64));
    }
}

#[test]
fn detection_count_rounds_up() {
    let mut run = VideofileProcessor::new(None, 3).unwrap();
    let mut counts = Vec::new();
    for frame in 1..=7 {
        let fresh = if run.wants_detection() { Some(boxes(frame)) } else { None };
        run.run_exp(fresh).unwrap();
        counts.push(run.progress().1);
    }
    assert_eq!(counts, vec![1, 1, 1, 2, 2, 2, 3]);
}

#[test]
fn detection_offered_between_refreshes_is_not_used() {
    let mut run = VideofileProcessor::new(None, 5).unwrap();
    run.run_exp(Some(boxes(1))).unwrap();
    assert!(!run.wants_detection());
    assert_eq!(run.run_exp(Some(boxes(2))), Ok(()));
    assert_eq!(run.annotations(), Some(&boxes(1)));
    assert_eq!(run.progress(), (2, 1));
}

#[test]
fn missing_detection_is_an_engine_failure() {
    let mut run = VideofileProcessor::new(None, 2).unwrap();
    assert_eq!(run.run_exp(None), Err(Failure::EngineFailure));
    assert_eq!(run.get_state(), StreamState::Closed);
    assert_eq!(run.progress(), (0, 0));
    let mut later = VideofileProcessor::new(None, 2).unwrap();
    later.run_exp(Some(boxes(1))).unwrap();
    later.run_exp(None).unwrap();
    assert_eq!(later.run_exp(None), Err(Failure::EngineFailure));
    assert_eq!(later.get_state(), StreamState::Closed);
    assert_eq!(later.progress(), (2, 1));
    assert_eq!(later.annotations(), Some(&boxes(1)));
}

#[test]
fn frame_after_the_end_is_a_stream_failure() {
    let mut run = VideofileProcessor::new(Some(1), 5).unwrap();
    run.run_exp(Some(boxes(1))).unwrap();
    run.end_of_stream();
    assert!(!run.wants_detection());
    assert_eq!(run.run_exp(Some(boxes(2))), Err(Failure::StreamFailure));
    assert_eq!(run.get_state(), StreamState::Closed);
    assert_eq!(run.run_exp(Some(boxes(3))), Err(Failure::StreamFailure));
    assert_eq!(run.progress(), (1, 1));
}

#[test]
fn empty_source_drains_at_once() {
    let mut run = VideofileProcessor::new(Some(0), 5).unwrap();
    run.end_of_stream();
    assert_eq!(run.get_state(), StreamState::Drained);
    assert_eq!(run.progress(), (0, 0));
    run.end_of_stream();
    assert_eq!(run.get_state(), StreamState::Drained);
}

#[test]
fn outside_failure_closes_the_run_and_is_handed_back() {
    let mut run = VideofileProcessor::new(None, 5).unwrap();
    run.run_exp(Some(boxes(1))).unwrap();
    assert_eq!(run.fail(Failure::StreamFailure), Failure::StreamFailure);
    assert_eq!(run.get_state(), StreamState::Closed);
    assert_eq!(run.progress(), (1, 1));
    run.end_of_stream();
    assert_eq!(run.get_state(), StreamState::Closed);
    let mut remote = VideofileProcessor::new(None, 5).unwrap();
    assert_eq!(remote.fail(Failure::NetworkFailure), Failure::NetworkFailure);
    assert_eq!(remote.get_state(), StreamState::Closed);
}
