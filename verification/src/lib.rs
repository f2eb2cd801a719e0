//! Tile references and tile reads for tiled TIFF / Cloud-Optimized GeoTIFF
//! files: the decisions behind locating a file in an object store, the
//! per-tile reference table, the per-directory summary and the bookkeeping
//! that keeps multi-file tile reads in row order.
use vstd::prelude::*;

pub mod text;
pub mod location;
pub mod dtype;
pub mod ifd;
pub mod refs;
pub mod ifd_info;
pub mod tiles;

verus! {

} // verus!
