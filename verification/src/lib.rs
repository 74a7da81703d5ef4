//! Verified core of the Insta360 keyframe / COLMAP preparation pipeline.

pub mod timestamps;
pub mod text;
pub mod insta360;
pub mod pairs;
pub mod mask;
pub mod error;
pub mod image;
pub mod objects;
pub mod colmap;
pub mod config;
pub mod duration;
pub mod imu;
pub mod output;
pub mod capture;
pub mod insta_mask_manifest;
pub mod metadata;
pub mod calibration;
