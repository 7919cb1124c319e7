//! Contour tracing for binary rasters.
//!
//! A picture is a grid of foreground and background cells, given as a grid
//! of bits ([`array`]) or as an 8-bit luminance image ([`luma_image`]). A
//! row-by-row scan ([`scanner`]) finds the first cell of every boundary, and
//! a Pavlidis-style walker ([`tracer`]) follows the boundary from there:
//! outlines of foreground regions, and the holes enclosed in them. Every
//! boundary becomes one path of axis-aligned commands ([`path`]): `M x y`,
//! then `H x` and `V y` in turn, then `Z` on demand.
//!
//! Scan and walk keep their books in the raster itself ([`raster`]): every
//! cell holds a counter, `+1` for foreground and `-1` for background, to
//! which the walker adds a mark for every side of the cell that it follows.
//! The marks tell the scan where it enters and leaves a region, and they
//! never repeat: a walk that is about to mark a side a second time has lost
//! its way and fails ([`error`]).
//!
//! The functions are specified by the state machines that they run, written
//! as spec functions next to them. What follows from those for every picture
//! is proved in [`laws`], [`winding`], [`mirror`] and [`plain`].

pub mod array;
pub mod error;
pub mod heading;
pub mod laws;
pub mod luma_image;
pub mod mirror;
pub mod path;
pub mod plain;
pub mod raster;
pub mod scanner;
pub mod tracer;
pub mod winding;
