//! The tables a COLMAP database is expected to hold.

use vstd::prelude::*;
use crate::colmap::rigs::{has_column, has_column_named};

verus! {

/// The expected table names, in order.
pub open spec fn expected_table_names() -> Seq<Seq<char>> {
    seq![
        "cameras"@,
        "images"@,
        "rigs"@,
        "frames"@,
        "keypoints"@,
        "descriptors"@,
        "matches"@,
        "two_view_geometries"@,
    ]
}

/// The expected table names.
pub fn expected_tables() -> (t: Vec<&'static str>)
    ensures
        t@.len() == expected_table_names().len(),
        forall|i: int| 0 <= i < t@.len() ==> (#[trigger] t@[i])@ == expected_table_names()[i],
{
    let t = vec![
        "cameras",
        "images",
        "rigs",
        "frames",
        "keypoints",
        "descriptors",
        "matches",
        "two_view_geometries",
    ];
    t
}

/// The expected tables among the first `n` that are not in `tables`, in order.
pub open spec fn missing_among(tables: Seq<String>, n: int) -> Seq<Seq<char>>
    decreases n,
{
    if n <= 0 {
        Seq::empty()
    } else {
        missing_among(tables, n - 1) + if has_column_named(tables, expected_table_names()[n - 1]) {
            Seq::<Seq<char>>::empty()
        } else {
            seq![expected_table_names()[n - 1]]
        }
    }
}

/// The expected tables the database lacks (they are created when needed, so this is
/// reported rather than refused).
pub fn missing_tables(tables: &Vec<String>) -> (m: Vec<&'static str>)
    ensures
        m@.len() == missing_among(tables@, expected_table_names().len() as int).len(),
        forall|i: int| 0 <= i < m@.len() ==> (#[trigger] m@[i])@ == missing_among(tables@, expected_table_names().len() as int)[i],
{
    let expected = expected_tables();
    let mut m: Vec<&'static str> = Vec::new();
    let mut i: usize = 0;
    while i < expected.len()
        invariant
            expected@.len() == expected_table_names().len(),
            forall|k: int| 0 <= k < expected@.len() ==> (#[trigger] expected@[k])@ == expected_table_names()[k],
            i <= expected@.len(),
            m@.len() == missing_among(tables@, i as int).len(),
            forall|k: int| 0 <= k < m@.len() ==> (#[trigger] m@[k])@ == missing_among(tables@, i as int)[k],
        decreases expected@.len() - i,
    {
        let name = expected[i];
        if !has_column(tables, name) {
            m.push(name);
        }
        i = i + 1;
    }
    m
}

} // verus!
