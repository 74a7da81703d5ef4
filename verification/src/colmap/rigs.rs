//! Which rig table layout a COLMAP database uses.

use vstd::prelude::*;
use crate::text::str_equal;

verus! {

/// The rig table layouts.
#[derive(Debug, Clone, Copy, PartialEq, Eq)]
pub enum RigSchema {
    /// COLMAP 4: `rigs(ref_sensor_id, ref_sensor_type)` with a `rig_sensors` table.
    Sensors,
    /// Older COLMAP: `rigs(ref_camera_id)`.
    RefCamera,
    /// Neither column is present.
    Unsupported,
}

/// `name` is one of `columns`.
pub open spec fn has_column_named(columns: Seq<String>, name: Seq<char>) -> bool {
    exists|i: int| 0 <= i < columns.len() && (#[trigger] columns[i])@ == name
}

/// Tests whether a column list holds a column.
pub fn has_column(columns: &Vec<String>, name: &str) -> (r: bool)
    ensures
        r == has_column_named(columns@, name@),
{
    let mut i: usize = 0;
    while i < columns.len()
        invariant
            i <= columns@.len(),
            forall|k: int| 0 <= k < i ==> (#[trigger] columns@[k])@ != name@,
        decreases columns@.len() - i,
    {
        if str_equal(columns[i].as_str(), name) {
            return true;
        }
        i = i + 1;
    }
    false
}

/// The layout the `rigs` columns reveal.
pub open spec fn rig_schema_of(columns: Seq<String>) -> RigSchema {
    if has_column_named(columns, "ref_sensor_id"@) {
        RigSchema::Sensors
    } else if has_column_named(columns, "ref_camera_id"@) {
        RigSchema::RefCamera
    } else {
        RigSchema::Unsupported
    }
}

/// Determines the rig table layout from the `rigs` table's column names.
pub fn rig_schema(columns: &Vec<String>) -> (s: RigSchema)
    ensures
        s == rig_schema_of(columns@),
{
    if has_column(columns, "ref_sensor_id") {
        RigSchema::Sensors
    } else if has_column(columns, "ref_camera_id") {
        RigSchema::RefCamera
    } else {
        RigSchema::Unsupported
    }
}

} // verus!
