//! Detection of animals in pictures and videos: the part that decides.
//!
//! * `geometry`: boxes on an integer grid and their overlap.
//! * `nms`: greedy suppression of overlapping detections, class by class.
//! * `descriptor`: what is known of a model apart from its graph.
//! * `bq`: the model bundle, one file for description and graph.
//! * `picture`: pictures as bytes, decoded and resized by the `image` crate.
//! * `yolo`: the local detector, before and after the model runs.
//! * `inference`: one detector for its callers, local or remote.
//! * `rest`: the answer of a detector on another machine.
//! * `video_file`: on which frames of a video the detector runs.
//! * `localization`: the interface strings.
//! * `error`: the ways in which all of this can fail.
//!
//! Probabilities and thresholds are fixed-point numbers with
//! `geometry::SCORE_ONE` standing for 1.0, and coordinates are integers: the
//! library holds no floating-point value. Running the model, reading files
//! and talking to the network are left to the program around it.

pub mod bq;
pub mod descriptor;
pub mod error;
pub mod geometry;
pub mod inference;
pub mod localization;
pub mod nms;
pub mod picture;
pub mod rest;
pub mod video_file;
pub mod yolo;
