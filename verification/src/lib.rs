//! A 2D tile-map compiler and distance-field generator.
//!
//! The crate turns a textual ASCII map into a per-cell tile assignment
//! (walls classified by their 11-cell neighborhood) and a rasterized
//! occluder buffer, and computes an approximate distance field from that
//! buffer with the jump-flooding algorithm.

use vstd::prelude::*;

pub mod animation;
pub mod compile;
pub mod entity;
pub mod grid;
pub mod sdf;
pub mod tiles;
pub mod utils;

verus! {

/// Side length, in pixels, of the square block that one grid cell covers
/// in the rasterized occluder buffer.
pub const TILE_SIZE: usize = 48;

/// The built-in demonstration map: `#` is a solid wall, `.` open floor.
pub const MAP: &'static str = "
########################################
########################################
########################################
#......................................#
#......................................#
#......................................#
#......................................#
#......................................#
#...############........#####..#####...#
#...############........#####..#####...#
#...############........#####..#####...#
#...##........##........##........##...#
#...##........##.......................#
#...##........##.......................#
#...##........##........##........##...#
#...##........##........##........##...#
#...#####..#####........#####..#####...#
#...#####..#####........#####..#####...#
#...#####..#####........#####..#####...#
#......................................#
#......................................#
#......................................#
#......................................#
#......................................#
########################################
";

} // verus!
