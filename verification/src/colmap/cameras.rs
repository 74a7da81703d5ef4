//! Camera models and how the database's cameras are reconciled with a calibration.

use vstd::prelude::*;
use crate::text::str_equal;

verus! {

/// The numeric camera model id stored for a model name: `OPENCV` 4, `OPENCV_FISHEYE`
/// 5 (COLMAP's id), `FULL_OPENCV` 12; other names get 0.
pub open spec fn colmap_model_id(name: Seq<char>) -> i32 {
    if name == "OPENCV"@ {
        4
    } else if name == "OPENCV_FISHEYE"@ {
        5
    } else if name == "FULL_OPENCV"@ {
        12
    } else {
        0
    }
}

/// The COLMAP model id of a camera model name.
pub fn model_id(name: &str) -> (id: i32)
    ensures
        id == colmap_model_id(name@),
{
    if str_equal(name, "OPENCV") {
        4
    } else if str_equal(name, "OPENCV_FISHEYE") {
        5
    } else if str_equal(name, "FULL_OPENCV") {
        12
    } else {
        0
    }
}

/// What to do with the cameras already in the database.
#[derive(Debug, Clone, Copy, PartialEq, Eq)]
pub enum CameraPlan {
    /// No cameras yet: insert the calibration's.
    Insert,
    /// The count differs from the calibration's: delete them and insert anew.
    Replace,
    /// Same count: keep the existing camera ids.
    Reuse,
}

/// The plan for `existing` database cameras against `calibrated` calibration cameras
/// (the count is compared after conversion to `usize`, as stored counts are).
pub open spec fn camera_plan_for(existing: i64, calibrated: usize) -> CameraPlan {
    if existing == 0 {
        CameraPlan::Insert
    } else if existing as usize != calibrated {
        CameraPlan::Replace
    } else {
        CameraPlan::Reuse
    }
}

/// Decides how to reconcile the database's cameras with the calibration.
pub fn camera_plan(existing: i64, calibrated: usize) -> (p: CameraPlan)
    ensures
        p == camera_plan_for(existing, calibrated),
{
    if existing == 0 {
        CameraPlan::Insert
    } else if existing as usize != calibrated {
        CameraPlan::Replace
    } else {
        CameraPlan::Reuse
    }
}

} // verus!
