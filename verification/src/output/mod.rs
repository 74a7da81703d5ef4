//! Output layout: where extracted frames are written and how they are named.

pub mod images;
pub mod manifest;
pub mod naming;
