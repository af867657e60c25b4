//! One detector for its callers, whether the model runs on this machine or
//! on another.
//!
//! A detection takes two decisions with work outside this library between
//! them. `request` says what is to be done for a picture: run the model
//! on a tensor, or send an encoded image to the other machine. `detect`
//! takes what came of it and gives the detections, or says what failed.

use crate::error::Failure;
use crate::geometry::XYXYc;
use crate::picture::{decoded_rgb8, jpeg_rgb8, planes, resize_fits, resized_rgb8, Picture};
use crate::rest::{bare, carried, decode_answer, parse_answer};
use crate::yolo::{detections_of, labelled_as, AIOutputs, Candidate, Yolo};
use vstd::prelude::*;

verus! {

/// A detector: a model on this machine, or the address of a machine that
/// detects for this one.
#[derive(Debug)]
pub enum Detector {
    Local(Yolo),
    Remote(String),
}

/// The work to be done outside this library for one picture.
#[derive(Clone, Debug, PartialEq, Eq)]
pub enum Request {
    /// Run the model on these colour planes of `width` by `height`.
    Run { tensor: Vec<u8>, width: u32, height: u32 },
    /// Send this encoded image to the machine at `url`.
    Send { url: String, image: Vec<u8> },
}

/// What came of the work outside this library.
#[derive(Clone, Debug, PartialEq, Eq)]
pub enum Reply {
    /// The candidates that the model put out.
    Output(Vec<Candidate>),
    /// The bytes that the other machine answered with.
    Answer(Vec<u8>),
    /// The model could not be run, or the other machine not be reached.
    Unavailable,
}

impl Detector {
    /// The work to be done for the picture `picture`. For a model on this
    /// machine that is running it on the picture, resized to the model's
    /// input and laid out as colour planes; it fails with `EngineFailure`
    /// where the picture is too large to resize. For another machine it is
    /// sending the picture as JPEG; it fails with `ProtocolFailure` where
    /// the picture cannot be written as JPEG.
    pub fn request(&self, picture: &Picture) -> (request: Result<Request, Failure>)
        requires
            picture.valid(),
        ensures
            match *self {
                Detector::Local(yolo) => if resize_fits(
                    picture.width,
                    picture.height,
                    yolo.descriptor().input_width,
                    yolo.descriptor().input_height,
                ) {
                    &&& request matches Ok(Request::Run { tensor, width, height })
                    &&& width == yolo.descriptor().input_width
                    &&& height == yolo.descriptor().input_height
                    &&& tensor@ == planes(
                        resized_rgb8(picture.data@, picture.width, picture.height, width, height),
                    )
                } else {
                    request == Err::<Request, Failure>(Failure::EngineFailure)
                },
                Detector::Remote(url) => match jpeg_rgb8(
                    picture.data@,
                    picture.width,
                    picture.height,
                ) {
                    Some(file) => {
                        &&& request matches Ok(Request::Send { url: to, image })
                        &&& to@ == url@
                        &&& image@ == file
                    },
                    None => request == Err::<Request, Failure>(Failure::ProtocolFailure),
                },
            },
    {
        match self {
            Detector::Local(yolo) => {
                let width = yolo.ai().input_width;
                let height = yolo.ai().input_height;
                assert(picture.width * height <= 0xffff_ffff * 0xffff_ffff) by (nonlinear_arith)
                    requires
                        picture.width <= 0xffff_ffff,
                        height <= 0xffff_ffff,
                ;
                assert(width * height <= 0xffff_ffff * 0xffff_ffff) by (nonlinear_arith)
                    requires
                        width <= 0xffff_ffff,
                        height <= 0xffff_ffff,
                ;
                if picture.width < 0x80_0000 && picture.height < 0x80_0000 && 16 * (
                picture.width as u128 * height as u128) <= isize::MAX as u128 && 16 * (width as u128
                    * height as u128) <= isize::MAX as u128 {
                    let (tensor, _, _) = yolo.prepare_input_from_imgbuf(picture);
                    Ok(Request::Run { tensor, width, height })
                } else {
                    Err(Failure::EngineFailure)
                }
            },
            Detector::Remote(url) => match picture.to_jpeg() {
                Some(image) => Ok(Request::Send { url: url.clone(), image }),
                None => Err(Failure::ProtocolFailure),
            },
        }
    }

    /// The work to be done for the encoded image `image`. For a model on
    /// this machine the image is decoded first, and what is no image is a
    /// `DecodeFailure`; the size of the decoded picture is given with the
    /// request. For another machine the image is sent as it is.
    pub fn request_for_image(&self, image: &[u8]) -> (request: Result<
        (Request, Option<(u32, u32)>),
        Failure,
    >)
        ensures
            match *self {
                Detector::Local(yolo) => match decoded_rgb8(image@) {
                    Some((width, height, data)) => if resize_fits(
                        width,
                        height,
                        yolo.descriptor().input_width,
                        yolo.descriptor().input_height,
                    ) {
                        &&& request matches Ok((Request::Run { tensor, width: w, height: h }, size))
                        &&& size == Some((width, height))
                        &&& w == yolo.descriptor().input_width
                        &&& h == yolo.descriptor().input_height
                        &&& tensor@ == planes(
                            resized_rgb8(data.take(3 * (width * height)), width, height, w, h),
                        )
                    } else {
                        request == Err::<(Request, Option<(u32, u32)>), Failure>(
                            Failure::EngineFailure,
                        )
                    },
                    None => request == Err::<(Request, Option<(u32, u32)>), Failure>(
                        Failure::DecodeFailure,
                    ),
                },
                Detector::Remote(url) => {
                    &&& request matches Ok((Request::Send { url: to, image: sent }, size))
                    &&& size is None
                    &&& to@ == url@
                    &&& sent@ == image@
                },
            },
    {
        match self {
            Detector::Local(_) => match Picture::decode(image) {
                Some(picture) => match self.request(&picture) {
                    Ok(request) => Ok((request, Some((picture.width, picture.height)))),
                    Err(failure) => Err(failure),
                },
                None => Err(Failure::DecodeFailure),
            },
            Detector::Remote(url) => Ok(
                (
                    Request::Send { url: url.clone(), image: vstd::slice::slice_to_vec(image) },
                    None,
                ),
            ),
        }
    }

    /// The detections in a picture of `img_width` by `img_height`, from
    /// what came of the work that `request` named.
    ///
    /// For a model on this machine: the detections that
    /// `Yolo::process_detect_output` gives for the model's output, with
    /// its failures; `EngineFailure` where there is no output.
    ///
    /// For another machine: the detections that its answer carries;
    /// `ProtocolFailure` where the answer is malformed, and where what
    /// came is no answer at all; `NetworkFailure` where the machine could
    /// not be reached.
    pub fn detect(&self, reply: Reply, img_width: u32, img_height: u32) -> (found: Result<
        Vec<XYXYc>,
        Failure,
    >)
        ensures
            match (*self, reply) {
                (Detector::Local(yolo), Reply::Output(rows)) => match found {
                    Ok(list) => {
                        &&& yolo.descriptor().task == crate::descriptor::Task::Detect
                        &&& detections_of(rows@, yolo.descriptor(), img_width, img_height)
                            matches Some(boxes)
                        &&& labelled_as(list@, boxes, yolo.descriptor().classes)
                    },
                    Err(failure) => if yolo.descriptor().task == crate::descriptor::Task::Detect {
                        failure == Failure::DecodeFailure && detections_of(
                            rows@,
                            yolo.descriptor(),
                            img_width,
                            img_height,
                        ) is None
                    } else {
                        failure == Failure::NotImplemented
                    },
                },
                (Detector::Local(_), _) => found == Err::<Vec<XYXYc>, Failure>(
                    Failure::EngineFailure,
                ),
                (Detector::Remote(_), Reply::Answer(bytes)) => match found {
                    Ok(list) => parse_answer(bytes@) == Some(carried(list@)) && bare(list@),
                    Err(failure) => failure == Failure::ProtocolFailure && parse_answer(bytes@)
                        is None,
                },
                (Detector::Remote(_), Reply::Unavailable) => found == Err::<Vec<XYXYc>, Failure>(
                    Failure::NetworkFailure,
                ),
                (Detector::Remote(_), Reply::Output(_)) => found == Err::<Vec<XYXYc>, Failure>(
                    Failure::ProtocolFailure,
                ),
            },
    {
        match self {
            Detector::Local(yolo) => match reply {
                Reply::Output(rows) => match yolo.run(&rows, img_width, img_height) {
                    Ok(AIOutputs::ObjectDetection(list)) => Ok(list),
                    Ok(_) => Err(Failure::NotImplemented),
                    Err(failure) => Err(failure),
                },
                _ => Err(Failure::EngineFailure),
            },
            Detector::Remote(_) => match reply {
                Reply::Answer(bytes) => decode_answer(bytes.as_slice()),
                Reply::Unavailable => Err(Failure::NetworkFailure),
                Reply::Output(_) => Err(Failure::ProtocolFailure),
            },
        }
    }
}

} // verus!
