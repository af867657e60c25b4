//! The ways in which loading a model, a detection or a video run can fail.

use vstd::prelude::*;

verus! {

/// Why an operation of this library gave no result.
#[derive(Clone, Copy, Debug, PartialEq, Eq, Structural)]
pub enum Failure {
    /// A model bundle is cut short or malformed.
    CorruptBundle,
    /// The inference backend could not run the model.
    EngineFailure,
    /// What the model put out has the wrong shape or content.
    DecodeFailure,
    /// The remote detector could not be reached.
    NetworkFailure,
    /// The remote detector answered with something malformed.
    ProtocolFailure,
    /// A video frame could not be read or written.
    StreamFailure,
    /// The model's task is one this library does not carry out.
    NotImplemented,
}

impl Failure {
    /// A short description for the user.
    pub fn message(&self) -> (text: &'static str)
        ensures
            text@ == (match *self {
                Failure::CorruptBundle => "corrupt model bundle"@,
                Failure::EngineFailure => "inference engine failure"@,
                Failure::DecodeFailure => "malformed model output"@,
                Failure::NetworkFailure => "network failure"@,
                Failure::ProtocolFailure => "malformed remote response"@,
                Failure::StreamFailure => "video stream failure"@,
                Failure::NotImplemented => "task not implemented"@,
            }),
    {
        match self {
            Failure::CorruptBundle => "corrupt model bundle",
            Failure::EngineFailure => "inference engine failure",
            Failure::DecodeFailure => "malformed model output",
            Failure::NetworkFailure => "network failure",
            Failure::ProtocolFailure => "malformed remote response",
            Failure::StreamFailure => "video stream failure",
            Failure::NotImplemented => "task not implemented",
        }
    }
}

} // verus!
