//! Loading of point clouds from a line-oriented text format.
//!
//! The first line of a document declares how many records follow. Every later
//! line holds one record as seven fields separated by single spaces:
//! `x y z intensity r g b`.
//!
//! Everything in this crate works on values in memory. Reading the document,
//! decoding the three position fields into binary32 values and running the
//! per-line work on several threads is left to the caller; the crate decides
//! what to read next, what a line means and in which order results are kept.

use vstd::prelude::*;

pub mod text;
pub mod number;
pub mod load;
pub mod batch;

verus! {

/// Three values of one kind: a position, or a colour.
#[derive(Eq, PartialEq, Clone, Hash, Debug, Copy)]
pub struct Vec3<N> {
    pub x: N,
    pub y: N,
    pub z: N,
}

/// One scanned point.
///
/// `point` holds each coordinate as the IEEE 754 binary32 bit pattern of the
/// decoded value, so that two records are equal exactly when they agree bit
/// for bit.
#[derive(Eq, PartialEq, Clone, Hash, Debug, Copy)]
pub struct PtsPoint {
    pub point: Vec3<u32>,
    pub intensity: i32,
    pub rgb: Vec3<u8>,
}

} // verus!
