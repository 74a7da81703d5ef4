//! Deciding whether an auto-generated calibration file is out of date.

use vstd::prelude::*;
use crate::text::str_equal;

verus! {

/// The stored calibration's camera models differ from the current default's: a
/// different number of cameras, or a different model for some camera.
pub open spec fn models_stale(existing: Seq<String>, fresh: Seq<String>) -> bool {
    existing.len() != fresh.len() || exists|i: int| 0 <= i < existing.len() && (#[trigger] existing[i])@ != fresh[i]@
}

/// Compares the camera models of a stored calibration with the current default's.
pub fn calibration_is_stale(existing_models: &Vec<String>, fresh_models: &Vec<String>) -> (r: bool)
    ensures
        r == models_stale(existing_models@, fresh_models@),
{
    if existing_models.len() != fresh_models.len() {
        return true;
    }
    let mut i: usize = 0;
    while i < existing_models.len()
        invariant
            existing_models@.len() == fresh_models@.len(),
            i <= existing_models@.len(),
            forall|k: int| 0 <= k < i ==> (#[trigger] existing_models@[k])@ == fresh_models@[k]@,
        decreases existing_models@.len() - i,
    {
        if !str_equal(existing_models[i].as_str(), fresh_models[i].as_str()) {
            return true;
        }
        i = i + 1;
    }
    false
}

} // verus!
