//! The library's error type.

use vstd::prelude::*;

verus! {

/// `std::io::Error`, carried through unchanged.
#[verifier::external_type_specification]
#[verifier::external_body]
pub struct ExIoError(std::io::Error);

/// Errors of the capture pipeline.
#[derive(Debug)]
pub enum AppError {
    Io(std::io::Error),
    InvalidInput(String),
    MissingLens(String),
    MismatchedRecording(String),
    MissingImu(String),
    UnsupportedTelemetry(String),
    Sync(String),
    Decode(String),
    Seek { timestamp_us: i64, msg: String },
    Output(String),
    Telemetry(String),
    Ffmpeg(String),
    Other(String),
}

} // verus!
