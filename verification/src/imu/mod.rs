//! IMU sample handling: ordering of samples, their timeline, and orientation lookup.
//!
//! Samples carry floating-point gyro and accelerometer readings, which the
//! application holds; the decisions here are made on their timestamps.

pub mod filters;
pub mod orientation;
pub mod timeline;
