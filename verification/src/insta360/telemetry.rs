//! Where a capture's telemetry is read from.

use vstd::prelude::*;
use crate::error::AppError;

verus! {

/// Telemetry read from an Insta360 recording; the sample decoding is done by the
/// application, which records here the camera model it finds.
pub struct Insta360TelemetrySource {
    path: String,
    camera_model: Option<String>,
}

impl Insta360TelemetrySource {
    /// The recording's path.
    pub closed spec fn path_view(&self) -> Seq<char> {
        self.path@
    }

    /// The camera model found so far.
    pub closed spec fn camera_model_view(&self) -> Option<Seq<char>> {
        match self.camera_model {
            Some(m) => Some(m@),
            None => None,
        }
    }

    /// A source for the recording at `path`, with no camera model known yet.
    pub fn new(path: &str) -> (s: Self)
        ensures
            s.path_view() == path@,
            s.camera_model_view() is None,
    {
        Insta360TelemetrySource { path: String::from_str(path), camera_model: None }
    }

    /// The recording's path.
    pub fn path(&self) -> (p: &str)
        ensures
            p@ == self.path_view(),
    {
        self.path.as_str()
    }

    /// The camera model found so far.
    pub fn camera_model(&self) -> (m: Option<String>)
        ensures
            m matches Some(x) ==> self.camera_model_view() == Some(x@),
            m is None ==> self.camera_model_view() is None,
    {
        match &self.camera_model {
            Some(m) => Some(m.clone()),
            None => None,
        }
    }

    /// Records the camera model the telemetry names.
    pub fn set_camera_model(&mut self, model: Option<String>)
        ensures
            final(self).path_view() == old(self).path_view(),
            model matches Some(x) ==> final(self).camera_model_view() == Some(x@),
            model is None ==> final(self).camera_model_view() is None,
    {
        self.camera_model = model;
    }
}

/// The 32 bytes that end an `.insv` file carrying a telemetry trailer (the ASCII text
/// `8db42d694ccc418790edff439fe026bf`).
pub open spec fn insv_trailer_magic() -> Seq<u8> {
    seq![
        0x38u8, 0x64, 0x62, 0x34, 0x32, 0x64, 0x36, 0x39, 0x34, 0x63, 0x63, 0x63, 0x34, 0x31, 0x38, 0x37,
        0x39, 0x30, 0x65, 0x64, 0x66, 0x66, 0x34, 0x33, 0x39, 0x66, 0x65, 0x30, 0x32, 0x36, 0x62, 0x66,
    ]
}

fn trailer_magic() -> (m: Vec<u8>)
    ensures
        m@ == insv_trailer_magic(),
{
    let m: Vec<u8> = vec![
        0x38u8, 0x64, 0x62, 0x34, 0x32, 0x64, 0x36, 0x39, 0x34, 0x63, 0x63, 0x63, 0x34, 0x31, 0x38, 0x37,
        0x39, 0x30, 0x65, 0x64, 0x66, 0x66, 0x34, 0x33, 0x39, 0x66, 0x65, 0x30, 0x32, 0x36, 0x62, 0x66,
    ];
    assert(m@ =~= insv_trailer_magic());
    m
}

/// The last 32 bytes of a file are the telemetry trailer's magic.
pub fn is_telemetry_trailer(tail: &[u8]) -> (r: bool)
    ensures
        r == (tail@ == insv_trailer_magic()),
{
    let magic = trailer_magic();
    if tail.len() != magic.len() {
        assert(tail@.len() != insv_trailer_magic().len());
        return false;
    }
    let mut i: usize = 0;
    while i < tail.len()
        invariant
            tail@.len() == magic@.len(),
            magic@ == insv_trailer_magic(),
            i <= tail@.len(),
            forall|k: int| 0 <= k < i ==> tail@[k] == magic@[k],
        decreases tail@.len() - i,
    {
        if tail[i] != magic[i] {
            assert(tail@[i as int] != insv_trailer_magic()[i as int]);
            return false;
        }
        i = i + 1;
    }
    assert(tail@ =~= magic@);
    true
}

/// Detects the camera model cheaply. The heavy telemetry parse that knows the model
/// runs later, so this reports none.
pub fn try_detect_with_parser(path: &str) -> (r: Result<Option<String>, AppError>)
    ensures
        r matches Ok(None),
{
    Ok(None)
}

/// The camera model of a recording, if it can be told before the full telemetry parse;
/// a failed detection counts as unknown.
pub fn detect_camera_model(path: &str) -> (r: Option<String>)
    ensures
        r is None,
{
    match try_detect_with_parser(path) {
        Ok(m) => m,
        Err(_) => None,
    }
}

} // verus!
