//! Activity classification support library: windowed feature extraction over
//! tri-axial accelerometer samples, segmentation with trimming, class
//! balancing, and the raw-buffer inference path.
//!
//! Accelerometer readings are IEEE 754 single-precision values; throughout the
//! verified code they are carried as their 32-bit bit patterns (`u32`), so
//! that every transformation on them can be stated and checked exactly.

use vstd::prelude::*;

pub mod fbits;
pub mod features;
pub mod segment;
pub mod balance;
pub mod inference;
pub mod evaluate;

verus! {

/// Number of samples in one classification window.
pub const WINDOW_SIZE: usize = 64;

/// One tri-axial accelerometer reading. The three acceleration fields hold
/// IEEE 754 single-precision bit patterns.
#[derive(Clone, Copy, Debug, PartialEq, Eq, Structural)]
pub struct AccelData {
    pub timestamp: u64,
    pub accel_x: u32,
    pub accel_y: u32,
    pub accel_z: u32,
}

} // verus!
