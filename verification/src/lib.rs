//! Verified core of the depth-of-field (portrait blur) effect: buffer layouts
//! for GPU readback, half-float to 8-bit conversion, depth-map resampling,
//! depth-map cache lookup and preview encoding.
pub mod layout;
pub mod half_float;
pub mod resample;
pub mod error;
pub mod depth_cache;
pub mod encode;
pub mod sizing;
