//! Annotating a video frame by frame: where the result is written, and on
//! which frames the detector runs.
//!
//! Frames are counted from 1. The detector runs on the first frame and
//! then on every `refresh_interval`-th frame after it; the frames between
//! are annotated with what it found last.

use crate::error::Failure;
use crate::geometry::XYXYc;
use vstd::prelude::*;

verus! {

/// Where a run over a video stands.
#[derive(Clone, Copy, Debug, PartialEq, Eq, Structural)]
pub enum StreamState {
    /// Source and destination are open; no frame was taken yet.
    Init,
    /// Frames flow.
    Streaming,
    /// The source has no further frame.
    Drained,
    /// The run is over.
    Closed,
}

/// The decisions of a run over a video: how many frames are done, whether
/// the next one needs the detector, and what was detected last.
#[derive(Debug)]
pub struct VideofileProcessor {
    state: StreamState,
    n_frames: Option<u64>,
    refresh_interval: usize,
    frame_count: u64,
    prev_bbox: Option<Vec<XYXYc>>,
}

/// The length of the part of `path` that names the directory: up to and
/// with the last backslash, zero where there is none.
pub open spec fn directory_len(path: Seq<char>) -> int
    decreases path.len(),
{
    if path.len() == 0 {
        0
    } else if path.last() == '\\' {
        path.len() as int
    } else {
        directory_len(path.drop_last())
    }
}

/// The path of the annotated copy of the video at `path`: in the same
/// directory, the file name with `predict_` before it.
pub open spec fn output_path(path: Seq<char>) -> Seq<char> {
    path.take(directory_len(path)) + "predict_"@ + path.skip(directory_len(path))
}

/// The detector runs on frame `frame`, counted from 1.
pub open spec fn refreshes(frame: int, refresh_interval: int) -> bool {
    (frame - 1) % refresh_interval == 0
}

/// How often the detector runs on the first `frames` frames.
pub open spec fn detections_in(frames: int, refresh_interval: int) -> int
    decreases frames,
{
    if frames <= 0 {
        0
    } else {
        detections_in(frames - 1, refresh_interval) + if refreshes(frames, refresh_interval) {
            1int
        } else {
            0int
        }
    }
}

/// Where the annotated copy of the video at `file_path` is written.
pub fn get_output_path(file_path: &str) -> (path: String)
    ensures
        path@ == output_path(file_path@),
{
    let n = file_path.unicode_len();
    let mut split: usize = 0;
    let mut i: usize = 0;
    assert(file_path@.take(0).len() == 0);
    while i < n
        invariant
            n == file_path@.len(),
            i <= n,
            split <= i,
            split == directory_len(file_path@.take(i as int)),
        decreases n - i,
    {
        proof {
            assert(file_path@.take(i + 1).drop_last() =~= file_path@.take(i as int));
            assert(file_path@.take(i + 1).last() == file_path@[i as int]);
        }
        if file_path.get_char(i) == '\\' {
            split = i + 1;
        }
        i += 1;
    }
    assert(file_path@.take(n as int) =~= file_path@);
    let directory = file_path.substring_char(0, split);
    let file_name = file_path.substring_char(split, n);
    let mut path = directory.to_owned();
    path.append("predict_");
    path.append(file_name);
    assert(path@ =~= output_path(file_path@));
    path
}

/// The detector runs once on each stretch of `refresh_interval` frames,
/// the last stretch counted though it may be shorter.
pub proof fn law_detections_in(frames: int, refresh_interval: int)
    requires
        frames >= 0,
        refresh_interval > 0,
    ensures
        detections_in(frames, refresh_interval) == (frames + refresh_interval - 1)
            / refresh_interval,
    decreases frames,
{
    let n = refresh_interval;
    if frames == 0 {
        vstd::arithmetic::div_mod::lemma_fundamental_div_mod_converse(n - 1, n, 0, n - 1);
    } else {
        law_detections_in(frames - 1, n);
        let q = (frames - 1) / n;
        let r = (frames - 1) % n;
        vstd::arithmetic::div_mod::lemma_fundamental_div_mod(frames - 1, n);
        assert(n * q == q * n && (q + 1) * n == q * n + n) by (nonlinear_arith);
        if r == 0 {
            vstd::arithmetic::div_mod::lemma_fundamental_div_mod_converse(
                frames - 1 + n - 1,
                n,
                q,
                n - 1,
            );
            vstd::arithmetic::div_mod::lemma_fundamental_div_mod_converse(
                frames + n - 1,
                n,
                q + 1,
                0,
            );
        } else {
            vstd::arithmetic::div_mod::lemma_fundamental_div_mod_converse(
                frames - 1 + n - 1,
                n,
                q + 1,
                r - 1,
            );
            vstd::arithmetic::div_mod::lemma_fundamental_div_mod_converse(
                frames + n - 1,
                n,
                q + 1,
                r,
            );
        }
    }
}

/// The detector has run at most once for each frame.
proof fn lemma_detections_bound(frames: int, refresh_interval: int)
    requires
        frames >= 0,
    ensures
        0 <= detections_in(frames, refresh_interval) <= frames,
    decreases frames,
{
    if frames > 0 {
        lemma_detections_bound(frames - 1, refresh_interval);
    }
}

impl VideofileProcessor {
    #[verifier::type_invariant]
    spec fn consistent(self) -> bool {
        &&& self.refresh_interval > 0
        &&& self.frame_count > 0 ==> self.prev_bbox is Some
    }

    /// Where the run stands.
    pub closed spec fn state(&self) -> StreamState {
        self.state
    }

    /// The number of frames of the source, where it is known.
    pub closed spec fn n_frames(&self) -> Option<u64> {
        self.n_frames
    }

    /// The number of frames between two runs of the detector.
    pub closed spec fn refresh_interval(&self) -> int {
        self.refresh_interval as int
    }

    /// The number of frames that are done.
    pub closed spec fn frames_done(&self) -> int {
        self.frame_count as int
    }

    /// How often the detector has run.
    pub closed spec fn detections_run(&self) -> int {
        detections_in(self.frame_count as int, self.refresh_interval as int)
    }

    /// What the detector found when it last ran.
    pub closed spec fn cached(&self) -> Option<Vec<XYXYc>> {
        self.prev_bbox
    }

    /// A run over a source of `n_frames` frames, if that is known, on
    /// which the detector runs every `refresh_interval` frames; nothing
    /// where the interval is zero.
    pub fn new(n_frames: Option<u64>, refresh_interval: usize) -> (made: Option<VideofileProcessor>)
        ensures
            made is Some <==> refresh_interval > 0,
            made matches Some(run) ==> {
                &&& run.state() == StreamState::Init
                &&& run.n_frames() == n_frames
                &&& run.refresh_interval() == refresh_interval
                &&& run.frames_done() == 0
                &&& run.detections_run() == 0
                &&& run.cached() is None
            },
    {
        if refresh_interval == 0 {
            None
        } else {
            Some(
                VideofileProcessor {
                    state: StreamState::Init,
                    n_frames,
                    refresh_interval,
                    frame_count: 0,
                    prev_bbox: None,
                },
            )
        }
    }

    /// The number of frames of the source, or nothing where it is not
    /// known.
    pub fn get_n_frames(&self) -> (n_frames: Option<u64>)
        ensures
            n_frames == self.n_frames(),
    {
        self.n_frames
    }

    /// Where the run stands.
    pub fn get_state(&self) -> (state: StreamState)
        ensures
            state == self.state(),
    {
        self.state
    }

    /// How many frames are done, and how often the detector has run: once
    /// for each frame on which it was due.
    pub fn progress(&self) -> (done: (u64, u64))
        ensures
            done.0 == self.frames_done(),
            done.1 == self.detections_run(),
            self.refresh_interval() > 0,
            self.detections_run() == detections_in(self.frames_done(), self.refresh_interval()),
    {
        proof {
            use_type_invariant(self);
            law_detections_in(self.frame_count as int, self.refresh_interval as int);
            lemma_detections_bound(self.frame_count as int, self.refresh_interval as int);
            if self.frame_count > 0 {
                let n = self.refresh_interval as int;
                let q = (self.frame_count - 1) / n;
                let r = (self.frame_count - 1) % n;
                vstd::arithmetic::div_mod::lemma_fundamental_div_mod(self.frame_count - 1, n);
                assert(n * q == q * n && (q + 1) * n == q * n + n) by (nonlinear_arith);
                vstd::arithmetic::div_mod::lemma_fundamental_div_mod_converse(
                    self.frame_count + n - 1,
                    n,
                    q + 1,
                    r,
                );
            }
        }
        if self.frame_count == 0 {
            (0, 0)
        } else {
            (self.frame_count, (self.frame_count - 1) / (self.refresh_interval as u64) + 1)
        }
    }

    /// Whether the detector is to run on the next frame: whether frames
    /// still flow and the next frame is one on which it is due.
    pub fn wants_detection(&self) -> (wanted: bool)
        ensures
            wanted == ((self.state() == StreamState::Init || self.state() == StreamState::Streaming)
                && refreshes(self.frames_done() + 1, self.refresh_interval())),
    {
        proof {
            use_type_invariant(self);
        }
        (self.state == StreamState::Init || self.state == StreamState::Streaming) && self.frame_count
            % (self.refresh_interval as u64) == 0
    }

    /// Takes the next frame. On a frame on which the detector is due,
    /// `detected` is what it found, which is kept for this frame and the
    /// frames that follow; on the other frames `detected` is not looked
    /// at. What the frame is to be annotated with is then given by
    /// `annotations`. Fails with `StreamFailure` where no frames flow or
    /// the frames can be counted no further, and with `EngineFailure`
    /// where the detector was due and `detected` is nothing; after a
    /// failure the run is closed.
    pub fn run_exp(&mut self, detected: Option<Vec<XYXYc>>) -> (boxes: Result<(), Failure>)
        ensures
            final(self).n_frames() == old(self).n_frames(),
            final(self).refresh_interval() == old(self).refresh_interval(),
            match boxes {
                Ok(()) => {
                    &&& old(self).state() == StreamState::Init || old(self).state()
                        == StreamState::Streaming
                    &&& final(self).state() == StreamState::Streaming
                    &&& final(self).frames_done() == old(self).frames_done() + 1
                    &&& if refreshes(final(self).frames_done(), old(self).refresh_interval()) {
                        &&& detected is Some
                        &&& final(self).cached() == detected
                        &&& final(self).detections_run() == old(self).detections_run() + 1
                    } else {
                        &&& final(self).cached() is Some
                        &&& final(self).cached() == old(self).cached()
                        &&& final(self).detections_run() == old(self).detections_run()
                    }
                },
                Err(failure) => {
                    &&& final(self).state() == StreamState::Closed
                    &&& final(self).frames_done() == old(self).frames_done()
                    &&& final(self).detections_run() == old(self).detections_run()
                    &&& final(self).cached() == old(self).cached()
                    &&& if (old(self).state() == StreamState::Init || old(self).state()
                        == StreamState::Streaming) && old(self).frames_done() < u64::MAX {
                        &&& failure == Failure::EngineFailure
                        &&& refreshes(old(self).frames_done() + 1, old(self).refresh_interval())
                        &&& detected is None
                    } else {
                        failure == Failure::StreamFailure
                    }
                },
            },
    {
        proof {
            use_type_invariant(&*self);
        }
        if !(self.state == StreamState::Init || self.state == StreamState::Streaming)
            || self.frame_count == u64::MAX {
            self.state = StreamState::Closed;
            return Err(Failure::StreamFailure);
        }
        proof {
            vstd::arithmetic::div_mod::lemma_small_mod(0, self.refresh_interval as nat);
            assert(refreshes(self.frame_count + 1, self.refresh_interval as int) == (
            self.frame_count % (self.refresh_interval as u64) == 0));
        }
        if self.frame_count % (self.refresh_interval as u64) == 0 {
            match detected {
                Some(found) => {
                    self.prev_bbox = Some(found);
                },
                None => {
                    self.state = StreamState::Closed;
                    return Err(Failure::EngineFailure);
                },
            }
        }
        self.frame_count = self.frame_count + 1;
        self.state = StreamState::Streaming;
        Ok(())
    }

    /// What the frame that was taken last is annotated with: what the
    /// detector found when it last ran.
    pub fn annotations(&self) -> (boxes: Option<&Vec<XYXYc>>)
        ensures
            match boxes {
                Some(list) => self.cached() == Some(*list),
                None => self.cached() is None,
            },
            self.frames_done() > 0 ==> boxes is Some,
    {
        proof {
            use_type_invariant(self);
        }
        self.prev_bbox.as_ref()
    }

    /// The source has no further frame: frames that flowed are drained. In
    /// any other state nothing changes.
    pub fn end_of_stream(&mut self)
        ensures
            final(self).state() == (if old(self).state() == StreamState::Init || old(self).state()
                == StreamState::Streaming {
                StreamState::Drained
            } else {
                old(self).state()
            }),
            final(self).n_frames() == old(self).n_frames(),
            final(self).refresh_interval() == old(self).refresh_interval(),
            final(self).frames_done() == old(self).frames_done(),
            final(self).detections_run() == old(self).detections_run(),
            final(self).cached() == old(self).cached(),
    {
        proof {
            use_type_invariant(&*self);
        }
        if self.state == StreamState::Init || self.state == StreamState::Streaming {
            self.state = StreamState::Drained;
        }
    }

    /// Ends the run after a failure outside this library (a frame that
    /// could not be read or written, a detector that failed), and hands
    /// the failure back as it came.
    pub fn fail(&mut self, failure: Failure) -> (surfaced: Failure)
        ensures
            surfaced == failure,
            final(self).state() == StreamState::Closed,
            final(self).n_frames() == old(self).n_frames(),
            final(self).refresh_interval() == old(self).refresh_interval(),
            final(self).frames_done() == old(self).frames_done(),
            final(self).detections_run() == old(self).detections_run(),
            final(self).cached() == old(self).cached(),
    {
        proof {
            use_type_invariant(&*self);
        }
        self.state = StreamState::Closed;
        failure
    }

    /// Ends the run. A run is called off between two frames by closing
    /// it: no frame is taken after that.
    pub fn close(&mut self)
        ensures
            final(self).state() == StreamState::Closed,
            final(self).n_frames() == old(self).n_frames(),
            final(self).refresh_interval() == old(self).refresh_interval(),
            final(self).frames_done() == old(self).frames_done(),
            final(self).detections_run() == old(self).detections_run(),
            final(self).cached() == old(self).cached(),
    {
        proof {
            use_type_invariant(&*self);
        }
        self.state = StreamState::Closed;
    }
}

} // verus!
