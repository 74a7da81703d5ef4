//! Object detection.

use vstd::prelude::*;

verus! {

/// Placeholder detector that finds nothing (its detections carry floating-point
/// scores, so the detection interface lives with the application).
pub struct DummyDetector;

} // verus!
