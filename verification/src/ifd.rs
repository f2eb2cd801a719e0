//! What the library reads of one TIFF image file directory (IFD), as
//! plain values, and the per-directory facts derived from it.
use vstd::prelude::*;
use crate::dtype::{SampleKind, bits_fit, first_bits};

verus! {

/// One image file directory, as read from a TIFF file.
///
/// Floating-point tags (`ModelPixelScale`, `ModelTiepoint`) are carried as
/// the IEEE-754 bit patterns of their values.
pub struct IfdMeta {
    pub image_width: u32,
    pub image_height: u32,
    /// `TileWidth`; `None` for a strip-based directory.
    pub tile_width: Option<u32>,
    /// `TileLength`; `None` for a strip-based directory.
    pub tile_height: Option<u32>,
    pub tile_offsets: Option<Vec<u64>>,
    pub tile_byte_counts: Option<Vec<u64>>,
    pub sample_format: Vec<SampleKind>,
    pub bits_per_sample: Vec<u16>,
    pub samples_per_pixel: u16,
    /// The compression method's name.
    pub compression: String,
    /// The photometric interpretation's name.
    pub photometric: String,
    /// The predictor's name, when the tag is present.
    pub predictor: Option<String>,
    /// The planar configuration's name.
    pub planar_configuration: String,
    /// `ProjectedCSTypeGeoKey`, when a GeoKey directory holds it.
    pub projected_type: Option<u16>,
    /// `GeographicTypeGeoKey`, when a GeoKey directory holds it.
    pub geographic_type: Option<u16>,
    /// GDAL's nodata string.
    pub gdal_nodata: Option<String>,
    /// `ModelPixelScale` (bit patterns).
    pub model_pixel_scale: Option<Vec<u64>>,
    /// `ModelTiepoint` (bit patterns).
    pub model_tiepoint: Option<Vec<u64>>,
}

/// The code stored for a directory without a CRS.
pub const NO_EPSG: i32 = i32::MIN;

/// The directory's EPSG code: the projected CRS, else the geographic one,
/// else [`NO_EPSG`].
pub open spec fn epsg_of(ifd: &IfdMeta) -> i32 {
    match ifd.projected_type {
        Some(c) => c as i32,
        None => match ifd.geographic_type {
            Some(c) => c as i32,
            None => i32::MIN,
        },
    }
}

/// The directory's EPSG code.
pub fn epsg_code(ifd: &IfdMeta) -> (r: i32)
    ensures
        r == epsg_of(ifd),
{
    match ifd.projected_type {
        Some(c) => c as i32,
        None => match ifd.geographic_type {
            Some(c) => c as i32,
            None => NO_EPSG,
        },
    }
}

/// Element `i` of an optional list, when both exist.
pub open spec fn opt_elem(o: Option<Vec<u64>>, i: int) -> Option<u64> {
    match o {
        Some(v) => if 0 <= i < v.len() { Some(v[i]) } else { None },
        None => None,
    }
}

/// Element `i` of an optional list, when both exist.
pub fn get_opt_elem(o: &Option<Vec<u64>>, i: usize) -> (r: Option<u64>)
    ensures
        r == opt_elem(*o, i as int),
{
    match o {
        Some(v) => if i < v.len() { Some(v[i]) } else { None },
        None => None,
    }
}

/// The first bit depth as an R integer (8 when absent).
pub fn first_bits_i32(ifd: &IfdMeta) -> (r: i32)
    ensures
        r == first_bits(ifd.bits_per_sample@) as i32,
{
    let b: u16 = if ifd.bits_per_sample.len() > 0 { ifd.bits_per_sample[0] } else { 8 };
    b as i32
}

/// The tile size of a tiled directory: both tile dimensions present and
/// positive.
pub open spec fn tile_size(ifd: &IfdMeta) -> Option<(u32, u32)> {
    match (ifd.tile_width, ifd.tile_height) {
        (Some(w), Some(h)) => if w > 0 && h > 0 { Some((w, h)) } else { None },
        _ => None,
    }
}

/// Whether the directory is skipped with a warning as strip-based: its
/// tile width is missing or zero.
pub open spec fn is_strip_based(ifd: &IfdMeta) -> bool {
    match ifd.tile_width {
        Some(w) => w == 0,
        None => true,
    }
}

/// Tiles needed to cover `extent` with tiles of `size` (rounding up).
pub open spec fn tiles_needed(extent: u32, size: u32) -> int
    recommends
        size > 0,
{
    (extent + size - 1) / (size as int)
}

/// Whether the directory summary can compute the directory's dtype: its
/// byte count is rounded up in 16-bit arithmetic.
pub fn fits_summary(ifd: &IfdMeta) -> (b: bool)
    ensures
        b == bits_fit(first_bits(ifd.bits_per_sample@)),
{
    let bits: u16 = if ifd.bits_per_sample.len() > 0 { ifd.bits_per_sample[0] } else { 8 };
    bits as u32 + 7 <= u16::MAX as u32
}

/// Tiles needed to cover `extent` with tiles of `size`, as the TIFF reader
/// counts them (async-tiff's `tile_count` divides in floating point, rounds
/// up and converts with saturation): the ceiling of `extent / size`; for a
/// zero size, none when the extent is zero too (not a number) and the
/// largest `usize` otherwise (infinity).
pub open spec fn reader_tiles(extent: u32, size: u32) -> usize {
    if size == 0 {
        if extent == 0 { 0 } else { usize::MAX }
    } else {
        tiles_needed(extent, size) as usize
    }
}

/// The tile grid (tiles across, tiles down) that the TIFF reader reports:
/// none unless both tile dimensions are present.
pub open spec fn reader_tile_count(ifd: &IfdMeta) -> Option<(usize, usize)> {
    match (ifd.tile_width, ifd.tile_height) {
        (Some(w), Some(h)) => Some(
            (reader_tiles(ifd.image_width, w), reader_tiles(ifd.image_height, h)),
        ),
        _ => None,
    }
}

fn count_tiles(extent: u32, size: u32) -> (r: usize)
    ensures
        r == reader_tiles(extent, size),
{
    if size == 0 {
        if extent == 0 { 0 } else { usize::MAX }
    } else {
        let n: u64 = (extent as u64 + size as u64 - 1) / (size as u64);
        assert(n <= extent) by (nonlinear_arith)
            requires
                size > 0,
                n == (extent + size - 1) / (size as int),
        ;
        n as usize
    }
}

/// The tile grid (tiles across, tiles down) that the TIFF reader reports
/// for the directory.
pub fn tile_grid(ifd: &IfdMeta) -> (r: Option<(usize, usize)>)
    ensures
        r == reader_tile_count(ifd),
{
    match (ifd.tile_width, ifd.tile_height) {
        (Some(w), Some(h)) => Some((count_tiles(ifd.image_width, w), count_tiles(ifd.image_height, h))),
        _ => None,
    }
}

/// The directories whose tile grid the reference scan can compute: the
/// grid arithmetic is 32-bit and the dtype's byte count 16-bit.
pub open spec fn scan_fits(ifd: &IfdMeta) -> bool {
    match tile_size(ifd) {
        None => true,
        Some((w, h)) => {
            &&& ifd.image_width + w <= u32::MAX
            &&& ifd.image_height + h <= u32::MAX
            &&& bits_fit(first_bits(ifd.bits_per_sample@))
            &&& (ifd.tile_offsets is Some && ifd.tile_byte_counts is Some)
                ==> tiles_needed(ifd.image_width, w) * tiles_needed(ifd.image_height, h)
                <= u32::MAX
        },
    }
}

/// Whether the reference scan can compute the directory's tile grid
/// without overflowing its 32-bit (grid) and 16-bit (dtype) arithmetic.
pub fn fits_scan(ifd: &IfdMeta) -> (b: bool)
    ensures
        b == scan_fits(ifd),
{
    let (w, h) = match (ifd.tile_width, ifd.tile_height) {
        (Some(w), Some(h)) => if w > 0 && h > 0 { (w, h) } else { return true },
        _ => return true,
    };
    assert(tile_size(ifd) == Some((w, h)));
    let bits: u16 = if ifd.bits_per_sample.len() > 0 { ifd.bits_per_sample[0] } else { 8 };
    if ifd.image_width as u64 + w as u64 > u32::MAX as u64 {
        return false;
    }
    if ifd.image_height as u64 + h as u64 > u32::MAX as u64 {
        return false;
    }
    if bits as u32 + 7 > u16::MAX as u32 {
        return false;
    }
    if ifd.tile_offsets.is_some() && ifd.tile_byte_counts.is_some() {
        let across: u64 = ((ifd.image_width + w - 1) / w) as u64;
        let down: u64 = ((ifd.image_height + h - 1) / h) as u64;
        assert(across <= u32::MAX && down <= u32::MAX);
        assert(across * down <= u32::MAX * u32::MAX) by (nonlinear_arith)
            requires
                across <= u32::MAX,
                down <= u32::MAX,
        ;
        return across * down <= u32::MAX as u64;
    }
    true
}

} // verus!
