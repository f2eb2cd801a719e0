//! The tile reference table: one row per tile of every tiled directory of
//! every scanned file, with the byte range of the tile and the metadata
//! that a reader needs to decode it.
use vstd::prelude::*;
use vstd::string::*;
use crate::dtype::{SampleKind, dtype_text, first_bits, first_sample_kind, format_dtype};
use crate::ifd::{
    IfdMeta, epsg_code, epsg_of, first_bits_i32, get_opt_elem, is_strip_based, opt_elem,
    scan_fits, tile_size, tiles_needed,
};
use crate::text::opt_string;

verus! {

/// One row of the reference table, as mathematical values.
pub struct RefRow {
    pub path: Seq<char>,
    pub ifd: i32,
    pub tile_col: i32,
    pub tile_row: i32,
    pub offset: u64,
    pub length: u64,
    pub image_w: i32,
    pub image_h: i32,
    pub tile_w: i32,
    pub tile_h: i32,
    pub dtype: Seq<char>,
    pub compression: Seq<char>,
    pub bits_per_sample: i32,
    pub samples_per_pixel: i32,
    pub crs_epsg: i32,
    pub gdal_nodata: Option<Seq<char>>,
    pub planar_configuration: Seq<char>,
    pub scale_x: Option<u64>,
    pub scale_y: Option<u64>,
    pub origin_x: Option<u64>,
    pub origin_y: Option<u64>,
}

/// One row of the reference table.
pub struct RefRecord {
    pub path: String,
    pub ifd: i32,
    pub tile_col: i32,
    pub tile_row: i32,
    pub offset: u64,
    pub length: u64,
    pub image_w: i32,
    pub image_h: i32,
    pub tile_w: i32,
    pub tile_h: i32,
    pub dtype: String,
    pub compression: String,
    pub bits_per_sample: i32,
    pub samples_per_pixel: i32,
    pub crs_epsg: i32,
    pub gdal_nodata: Option<String>,
    pub planar_configuration: String,
    pub scale_x: Option<u64>,
    pub scale_y: Option<u64>,
    pub origin_x: Option<u64>,
    pub origin_y: Option<u64>,
}

impl View for RefRecord {
    type V = RefRow;

    open spec fn view(&self) -> RefRow {
        RefRow {
            path: self.path@,
            ifd: self.ifd,
            tile_col: self.tile_col,
            tile_row: self.tile_row,
            offset: self.offset,
            length: self.length,
            image_w: self.image_w,
            image_h: self.image_h,
            tile_w: self.tile_w,
            tile_h: self.tile_h,
            dtype: self.dtype@,
            compression: self.compression@,
            bits_per_sample: self.bits_per_sample,
            samples_per_pixel: self.samples_per_pixel,
            crs_epsg: self.crs_epsg,
            gdal_nodata: opt_string(self.gdal_nodata),
            planar_configuration: self.planar_configuration@,
            scale_x: self.scale_x,
            scale_y: self.scale_y,
            origin_x: self.origin_x,
            origin_y: self.origin_y,
        }
    }
}

/// The reference table, column by column.  Offsets and lengths are byte
/// counts; the geotransform columns hold IEEE-754 bit patterns.
pub struct RefColumns {
    pub path: Vec<String>,
    pub ifd: Vec<i32>,
    pub tile_col: Vec<i32>,
    pub tile_row: Vec<i32>,
    pub offset: Vec<u64>,
    pub length: Vec<u64>,
    pub image_w: Vec<i32>,
    pub image_h: Vec<i32>,
    pub tile_w: Vec<i32>,
    pub tile_h: Vec<i32>,
    pub dtype: Vec<String>,
    pub compression: Vec<String>,
    pub bits_per_sample: Vec<i32>,
    pub samples_per_pixel: Vec<i32>,
    pub crs_epsg: Vec<i32>,
    pub gdal_nodata: Vec<Option<String>>,
    pub planar_configuration: Vec<String>,
    pub scale_x: Vec<Option<u64>>,
    pub scale_y: Vec<Option<u64>>,
    pub origin_x: Vec<Option<u64>>,
    pub origin_y: Vec<Option<u64>>,
}

impl RefColumns {
    /// All columns have the same length.
    pub open spec fn wf(&self) -> bool {
        let n = self.path.len();
        &&& self.ifd.len() == n
        &&& self.tile_col.len() == n
        &&& self.tile_row.len() == n
        &&& self.offset.len() == n
        &&& self.length.len() == n
        &&& self.image_w.len() == n
        &&& self.image_h.len() == n
        &&& self.tile_w.len() == n
        &&& self.tile_h.len() == n
        &&& self.dtype.len() == n
        &&& self.compression.len() == n
        &&& self.bits_per_sample.len() == n
        &&& self.samples_per_pixel.len() == n
        &&& self.crs_epsg.len() == n
        &&& self.gdal_nodata.len() == n
        &&& self.planar_configuration.len() == n
        &&& self.scale_x.len() == n
        &&& self.scale_y.len() == n
        &&& self.origin_x.len() == n
        &&& self.origin_y.len() == n
    }

    /// Row `i` of the table.
    pub open spec fn row(&self, i: int) -> RefRow {
        RefRow {
            path: self.path@[i]@,
            ifd: self.ifd@[i],
            tile_col: self.tile_col@[i],
            tile_row: self.tile_row@[i],
            offset: self.offset@[i],
            length: self.length@[i],
            image_w: self.image_w@[i],
            image_h: self.image_h@[i],
            tile_w: self.tile_w@[i],
            tile_h: self.tile_h@[i],
            dtype: self.dtype@[i]@,
            compression: self.compression@[i]@,
            bits_per_sample: self.bits_per_sample@[i],
            samples_per_pixel: self.samples_per_pixel@[i],
            crs_epsg: self.crs_epsg@[i],
            gdal_nodata: opt_string(self.gdal_nodata@[i]),
            planar_configuration: self.planar_configuration@[i]@,
            scale_x: self.scale_x@[i],
            scale_y: self.scale_y@[i],
            origin_x: self.origin_x@[i],
            origin_y: self.origin_y@[i],
        }
    }

    /// The table's rows, in order.
    pub open spec fn rows(&self) -> Seq<RefRow> {
        Seq::new(self.path.len() as nat, |i: int| self.row(i))
    }

    /// An empty table.
    pub fn new() -> (r: Self)
        ensures
            r.wf(),
            r.rows() == Seq::<RefRow>::empty(),
    {
        let r = RefColumns {
            path: Vec::new(),
            ifd: Vec::new(),
            tile_col: Vec::new(),
            tile_row: Vec::new(),
            offset: Vec::new(),
            length: Vec::new(),
            image_w: Vec::new(),
            image_h: Vec::new(),
            tile_w: Vec::new(),
            tile_h: Vec::new(),
            dtype: Vec::new(),
            compression: Vec::new(),
            bits_per_sample: Vec::new(),
            samples_per_pixel: Vec::new(),
            crs_epsg: Vec::new(),
            gdal_nodata: Vec::new(),
            planar_configuration: Vec::new(),
            scale_x: Vec::new(),
            scale_y: Vec::new(),
            origin_x: Vec::new(),
            origin_y: Vec::new(),
        };
        assert(r.rows() =~= Seq::<RefRow>::empty());
        r
    }

    /// The number of rows.
    pub fn len(&self) -> (n: usize)
        requires
            self.wf(),
        ensures
            n == self.rows().len(),
    {
        self.path.len()
    }

    /// Appends one row.
    pub fn push(&mut self, rec: RefRecord)
        requires
            old(self).wf(),
        ensures
            final(self).wf(),
            final(self).rows() == old(self).rows().push(rec@),
    {
        let ghost before = self.rows();
        self.path.push(rec.path);
        self.ifd.push(rec.ifd);
        self.tile_col.push(rec.tile_col);
        self.tile_row.push(rec.tile_row);
        self.offset.push(rec.offset);
        self.length.push(rec.length);
        self.image_w.push(rec.image_w);
        self.image_h.push(rec.image_h);
        self.tile_w.push(rec.tile_w);
        self.tile_h.push(rec.tile_h);
        self.dtype.push(rec.dtype);
        self.compression.push(rec.compression);
        self.bits_per_sample.push(rec.bits_per_sample);
        self.samples_per_pixel.push(rec.samples_per_pixel);
        self.crs_epsg.push(rec.crs_epsg);
        self.gdal_nodata.push(rec.gdal_nodata);
        self.planar_configuration.push(rec.planar_configuration);
        self.scale_x.push(rec.scale_x);
        self.scale_y.push(rec.scale_y);
        self.origin_x.push(rec.origin_x);
        self.origin_y.push(rec.origin_y);
        assert(self.rows() =~= before.push(rec@));
    }

    /// Appends all rows of `other`, in order.
    pub fn extend(&mut self, other: RefColumns)
        requires
            old(self).wf(),
            other.wf(),
        ensures
            final(self).wf(),
            final(self).rows() == old(self).rows() + other.rows(),
    {
        let ghost before = self.rows();
        let ghost added = other.rows();
        let mut other = other;
        self.path.append(&mut other.path);
        self.ifd.append(&mut other.ifd);
        self.tile_col.append(&mut other.tile_col);
        self.tile_row.append(&mut other.tile_row);
        self.offset.append(&mut other.offset);
        self.length.append(&mut other.length);
        self.image_w.append(&mut other.image_w);
        self.image_h.append(&mut other.image_h);
        self.tile_w.append(&mut other.tile_w);
        self.tile_h.append(&mut other.tile_h);
        self.dtype.append(&mut other.dtype);
        self.compression.append(&mut other.compression);
        self.bits_per_sample.append(&mut other.bits_per_sample);
        self.samples_per_pixel.append(&mut other.samples_per_pixel);
        self.crs_epsg.append(&mut other.crs_epsg);
        self.gdal_nodata.append(&mut other.gdal_nodata);
        self.planar_configuration.append(&mut other.planar_configuration);
        self.scale_x.append(&mut other.scale_x);
        self.scale_y.append(&mut other.scale_y);
        self.origin_x.append(&mut other.origin_x);
        self.origin_y.append(&mut other.origin_y);
        assert(self.rows() =~= before + added);
    }
}

} // verus!

verus! {

/// Value of an optional list element, 0 when absent.
pub open spec fn elem_or_zero(o: Option<Vec<u64>>, k: int) -> u64 {
    match opt_elem(o, k) {
        Some(v) => v,
        None => 0,
    }
}

/// The number of reference rows a directory contributes: the size of its
/// tile grid when it is tiled and has both tile offsets and byte counts,
/// else none.
pub open spec fn ifd_tile_total(ifd: &IfdMeta) -> int {
    match tile_size(ifd) {
        None => 0,
        Some((w, h)) => if ifd.tile_offsets is Some && ifd.tile_byte_counts is Some {
            tiles_needed(ifd.image_width, w) * tiles_needed(ifd.image_height, h)
        } else {
            0
        },
    }
}

/// Reference row `k` (in row-major tile order) of directory `idx` of the
/// file at `url`.
pub open spec fn tile_ref(url: Seq<char>, idx: int, ifd: &IfdMeta, k: int) -> RefRow {
    let (w, h) = tile_size(ifd).unwrap();
    let across = tiles_needed(ifd.image_width, w);
    RefRow {
        path: url,
        ifd: idx as i32,
        tile_col: (k % across) as i32,
        tile_row: (k / across) as i32,
        offset: elem_or_zero(ifd.tile_offsets, k),
        length: elem_or_zero(ifd.tile_byte_counts, k),
        image_w: ifd.image_width as i32,
        image_h: ifd.image_height as i32,
        tile_w: w as i32,
        tile_h: h as i32,
        dtype: dtype_text(first_sample_kind(ifd.sample_format@), first_bits(ifd.bits_per_sample@)),
        compression: ifd.compression@,
        bits_per_sample: first_bits(ifd.bits_per_sample@) as i32,
        samples_per_pixel: ifd.samples_per_pixel as i32,
        crs_epsg: epsg_of(ifd),
        gdal_nodata: opt_string(ifd.gdal_nodata),
        planar_configuration: ifd.planar_configuration@,
        scale_x: opt_elem(ifd.model_pixel_scale, 0),
        scale_y: opt_elem(ifd.model_pixel_scale, 1),
        origin_x: opt_elem(ifd.model_tiepoint, 3),
        origin_y: opt_elem(ifd.model_tiepoint, 4),
    }
}

/// The reference rows of directory `idx` of the file at `url`.
pub open spec fn ifd_refs(url: Seq<char>, idx: int, ifd: &IfdMeta) -> Seq<RefRow> {
    Seq::new(ifd_tile_total(ifd) as nat, |k: int| tile_ref(url, idx, ifd, k))
}

/// The reference rows of a file: those of each directory, in directory
/// order.
pub open spec fn file_refs(url: Seq<char>, ifds: Seq<IfdMeta>) -> Seq<RefRow>
    decreases ifds.len(),
{
    if ifds.len() == 0 {
        Seq::empty()
    } else {
        file_refs(url, ifds.drop_last()) + ifd_refs(url, ifds.len() - 1, &ifds.last())
    }
}

/// The indices of the directories that are skipped as strip-based, in
/// order.
pub open spec fn strip_ifds(ifds: Seq<IfdMeta>) -> Seq<usize>
    decreases ifds.len(),
{
    if ifds.len() == 0 {
        Seq::empty()
    } else if is_strip_based(&ifds.last()) {
        strip_ifds(ifds.drop_last()).push((ifds.len() - 1) as usize)
    } else {
        strip_ifds(ifds.drop_last())
    }
}

/// Every directory of the file can be scanned.
pub open spec fn all_scan_fit(ifds: Seq<IfdMeta>) -> bool {
    forall|i: int| 0 <= i < ifds.len() ==> scan_fits(#[trigger] &ifds[i])
}

fn clone_opt_string(o: &Option<String>) -> (r: Option<String>)
    ensures
        opt_string(r) == opt_string(*o),
{
    match o {
        Some(s) => Some(s.clone()),
        None => None,
    }
}

/// Appends the reference rows of directory `idx` to `cols`.
fn push_ifd_refs(cols: &mut RefColumns, url_str: &str, idx: usize, ifd: &IfdMeta)
    requires
        old(cols).wf(),
        scan_fits(ifd),
    ensures
        final(cols).wf(),
        final(cols).rows() == old(cols).rows() + ifd_refs(url_str@, idx as int, ifd),
{
    let ghost start = cols.rows();
    let t_w: u32 = match ifd.tile_width {
        Some(w) => if w > 0 { w } else {
            assert(ifd_refs(url_str@, idx as int, ifd) =~= Seq::<RefRow>::empty());
            return;
        },
        None => {
            assert(ifd_refs(url_str@, idx as int, ifd) =~= Seq::<RefRow>::empty());
            return;
        },
    };
    let t_h: u32 = match ifd.tile_height {
        Some(h) => if h > 0 { h } else {
            assert(ifd_refs(url_str@, idx as int, ifd) =~= Seq::<RefRow>::empty());
            return;
        },
        None => {
            assert(ifd_refs(url_str@, idx as int, ifd) =~= Seq::<RefRow>::empty());
            return;
        },
    };
    assert(tile_size(ifd) == Some((t_w, t_h)));
    let img_w = ifd.image_width;
    let img_h = ifd.image_height;
    let tiles_across: u32 = (img_w + t_w - 1) / t_w;
    let tiles_down: u32 = (img_h + t_h - 1) / t_h;
    let dtype_str = format_dtype(ifd.sample_format.as_slice(), ifd.bits_per_sample.as_slice());
    let bps_first = first_bits_i32(ifd);
    let epsg = epsg_code(ifd);
    let scale_x = get_opt_elem(&ifd.model_pixel_scale, 0);
    let scale_y = get_opt_elem(&ifd.model_pixel_scale, 1);
    let origin_x = get_opt_elem(&ifd.model_tiepoint, 3);
    let origin_y = get_opt_elem(&ifd.model_tiepoint, 4);
    let offsets = match &ifd.tile_offsets {
        Some(o) => o,
        None => {
            assert(ifd_refs(url_str@, idx as int, ifd) =~= Seq::<RefRow>::empty());
            return;
        },
    };
    let byte_counts = match &ifd.tile_byte_counts {
        Some(bc) => bc,
        None => {
            assert(ifd_refs(url_str@, idx as int, ifd) =~= Seq::<RefRow>::empty());
            return;
        },
    };
    let n_tiles: usize = (tiles_across * tiles_down) as usize;
    let ghost rows = ifd_refs(url_str@, idx as int, ifd);
    assert(rows.len() == n_tiles);
    let mut tile_idx: usize = 0;
    while tile_idx < n_tiles
        invariant
            cols.wf(),
            tile_idx <= n_tiles,
            n_tiles == rows.len(),
            n_tiles <= u32::MAX,
            n_tiles == tiles_across * tiles_down,
            img_w == ifd.image_width,
            img_h == ifd.image_height,
            tile_size(ifd) == Some((t_w, t_h)),
            tiles_across as int == tiles_needed(ifd.image_width, t_w),
            rows == ifd_refs(url_str@, idx as int, ifd),
            ifd.tile_offsets == Some(*offsets),
            ifd.tile_byte_counts == Some(*byte_counts),
            dtype_str@ == dtype_text(
                first_sample_kind(ifd.sample_format@),
                first_bits(ifd.bits_per_sample@),
            ),
            bps_first == first_bits(ifd.bits_per_sample@) as i32,
            epsg == epsg_of(ifd),
            scale_x == opt_elem(ifd.model_pixel_scale, 0),
            scale_y == opt_elem(ifd.model_pixel_scale, 1),
            origin_x == opt_elem(ifd.model_tiepoint, 3),
            origin_y == opt_elem(ifd.model_tiepoint, 4),
            cols.rows() == start + rows.take(tile_idx as int),
        decreases n_tiles - tile_idx,
    {
        assert(tiles_across > 0) by {
            if tiles_across == 0 {
                assert(tiles_across * tiles_down == 0);
            }
        }
        let tc: u32 = (tile_idx as u32) % tiles_across;
        let tr: u32 = (tile_idx as u32) / tiles_across;
        let off: u64 = if tile_idx < offsets.len() { offsets[tile_idx] } else { 0 };
        let len: u64 = if tile_idx < byte_counts.len() { byte_counts[tile_idx] } else { 0 };
        let rec = RefRecord {
            path: String::from_str(url_str),
            ifd: idx as i32,
            tile_col: tc as i32,
            tile_row: tr as i32,
            offset: off,
            length: len,
            image_w: img_w as i32,
            image_h: img_h as i32,
            tile_w: t_w as i32,
            tile_h: t_h as i32,
            dtype: dtype_str.clone(),
            compression: ifd.compression.clone(),
            bits_per_sample: bps_first,
            samples_per_pixel: ifd.samples_per_pixel as i32,
            crs_epsg: epsg,
            gdal_nodata: clone_opt_string(&ifd.gdal_nodata),
            planar_configuration: ifd.planar_configuration.clone(),
            scale_x,
            scale_y,
            origin_x,
            origin_y,
        };
        proof {
            let want = tile_ref(url_str@, idx as int, ifd, tile_idx as int);
            assert(rec@.tile_col == want.tile_col);
            assert(rec@.tile_row == want.tile_row);
            assert(rec@.offset == want.offset);
            assert(rec@.length == want.length);
            assert(rec@.dtype == want.dtype);
            assert(rec@.gdal_nodata == want.gdal_nodata);
            assert(rec@.path == want.path);
            assert(rec@.ifd == want.ifd);
            assert(rec@.image_w == want.image_w);
            assert(rec@.image_h == want.image_h);
            assert(rec@.tile_w == want.tile_w);
            assert(rec@.tile_h == want.tile_h);
            assert(rec@.compression == want.compression);
            assert(rec@.bits_per_sample == want.bits_per_sample);
            assert(rec@.samples_per_pixel == want.samples_per_pixel);
            assert(rec@.crs_epsg == want.crs_epsg);
            assert(rec@.planar_configuration == want.planar_configuration);
            assert(rec@.scale_x == want.scale_x);
            assert(rec@.scale_y == want.scale_y);
            assert(rec@.origin_x == want.origin_x);
            assert(rec@.origin_y == want.origin_y);
            assert(rec@ == want);
        }
        cols.push(rec);
        assert(rows.take(tile_idx + 1) =~= rows.take(tile_idx as int).push(rows[tile_idx as int]));
        tile_idx = tile_idx + 1;
    }
    assert(rows.take(n_tiles as int) =~= rows);
}

/// The reference table of one file at `url_str` with directories `ifds`,
/// and the indices of the directories skipped as strip-based (whose
/// warnings the caller reports).
pub fn refs_from_ifds(url_str: &str, ifds: &[IfdMeta]) -> (r: (RefColumns, Vec<usize>))
    requires
        all_scan_fit(ifds@),
    ensures
        r.0.wf(),
        r.0.rows() == file_refs(url_str@, ifds@),
        r.1@ == strip_ifds(ifds@),
{
    let mut cols = RefColumns::new();
    let mut strips: Vec<usize> = Vec::new();
    let mut i: usize = 0;
    while i < ifds.len()
        invariant
            i <= ifds.len(),
            all_scan_fit(ifds@),
            cols.wf(),
            cols.rows() == file_refs(url_str@, ifds@.take(i as int)),
            strips@ == strip_ifds(ifds@.take(i as int)),
        decreases ifds.len() - i,
    {
        let ifd = &ifds[i];
        assert(ifds@.take(i + 1).drop_last() =~= ifds@.take(i as int));
        assert(ifds@.take(i + 1).last() == ifds@[i as int]);
        let strip = match ifd.tile_width {
            Some(w) => w == 0,
            None => true,
        };
        if strip {
            strips.push(i);
        }
        assert(scan_fits(&ifds@[i as int]));
        push_ifd_refs(&mut cols, url_str, i, ifd);
        i = i + 1;
    }
    assert(ifds@.take(ifds.len() as int) =~= ifds@);
    (cols, strips)
}

} // verus!

verus! {

/// The rows of the successfully scanned files, in the order of `results`.
pub open spec fn merged_rows(results: Seq<Result<RefColumns, String>>) -> Seq<RefRow>
    decreases results.len(),
{
    if results.len() == 0 {
        Seq::empty()
    } else {
        merged_rows(results.drop_last()) + match results.last() {
            Ok(c) => c.rows(),
            Err(_) => Seq::empty(),
        }
    }
}

/// The messages of the failed files, in the order of `results`.
pub open spec fn failure_messages<T>(results: Seq<Result<T, String>>) -> Seq<Seq<char>>
    decreases results.len(),
{
    if results.len() == 0 {
        Seq::empty()
    } else {
        match results.last() {
            Ok(_) => failure_messages(results.drop_last()),
            Err(m) => failure_messages(results.drop_last()).push(m@),
        }
    }
}

/// The texts of a list of strings.
pub open spec fn texts(v: Seq<String>) -> Seq<Seq<char>> {
    v.map_values(|s: String| s@)
}

/// Every successful result is a well-formed table.
pub open spec fn all_tables_wf(results: Seq<Result<RefColumns, String>>) -> bool {
    forall|i: int| 0 <= i < results.len() ==> (#[trigger] results[i] matches Ok(c) ==> c.wf())
}

/// Merges the per-file scan results: the tables of the files that were
/// read, concatenated in order, and the messages of those that failed.
pub fn merge_ref_results(results: Vec<Result<RefColumns, String>>) -> (r: (RefColumns, Vec<String>))
    requires
        all_tables_wf(results@),
    ensures
        r.0.wf(),
        r.0.rows() == merged_rows(results@),
        texts(r.1@) == failure_messages(results@),
{
    let ghost all = results@;
    let mut merged = RefColumns::new();
    let mut errs: Vec<String> = Vec::new();
    for result in it: results.into_iter()
        invariant
            all == it.seq(),
            all_tables_wf(all),
            merged.wf(),
            merged.rows() == merged_rows(all.take(it.index() as int)),
            texts(errs@) == failure_messages(all.take(it.index() as int)),
    {
        let ghost k = it.index() as int;
        assert(all.take(k + 1).drop_last() =~= all.take(k));
        assert(all.take(k + 1).last() == all[k]);
        match result {
            Ok(file_cols) => {
                assert(file_cols.wf());
                merged.extend(file_cols);
            },
            Err(e) => {
                errs.push(e);
                assert(texts(errs@) =~= failure_messages(all.take(k)).push(all[k]->Err_0@));
            },
        }
    }
    assert(all.take(all.len() as int) =~= all);
    (merged, errs)
}

} // verus!

verus! {

/// An EPSG code as an R value: missing for [`crate::ifd::NO_EPSG`].
pub open spec fn epsg_for_r(code: i32) -> Option<i32> {
    if code == i32::MIN { None } else { Some(code) }
}

/// The EPSG column as R values: [`crate::ifd::NO_EPSG`] becomes missing.
pub fn crs_epsg_for_r(codes: &Vec<i32>) -> (r: Vec<Option<i32>>)
    ensures
        r@ == codes@.map_values(|c: i32| epsg_for_r(c)),
{
    let mut r: Vec<Option<i32>> = Vec::new();
    let mut i: usize = 0;
    while i < codes.len()
        invariant
            i <= codes.len(),
            r@ == codes@.take(i as int).map_values(|c: i32| epsg_for_r(c)),
        decreases codes.len() - i,
    {
        let c = codes[i];
        r.push(if c == crate::ifd::NO_EPSG { None } else { Some(c) });
        assert(codes@.take(i + 1).map_values(|c: i32| epsg_for_r(c))
            =~= codes@.take(i as int).map_values(|c: i32| epsg_for_r(c)).push(epsg_for_r(c)));
        i = i + 1;
    }
    assert(codes@.take(codes.len() as int) =~= codes@);
    r
}

} // verus!

verus! {

/// Tiles across a tiled directory's grid.
pub open spec fn grid_across(ifd: &IfdMeta) -> int {
    let (w, h) = tile_size(ifd).unwrap();
    tiles_needed(ifd.image_width, w)
}

/// Tiles down a tiled directory's grid.
pub open spec fn grid_down(ifd: &IfdMeta) -> int {
    let (w, h) = tile_size(ifd).unwrap();
    tiles_needed(ifd.image_height, h)
}

/// Every tile of a tiled directory's grid has exactly one reference row:
/// the tile in column `c` and row `r` is row `r * across + c` of the
/// directory's references, and that row names column `c` and row `r`.
pub proof fn lemma_one_ref_per_tile(url: Seq<char>, idx: int, ifd: &IfdMeta, c: int, r: int)
    requires
        tile_size(ifd) is Some,
        ifd.tile_offsets is Some,
        ifd.tile_byte_counts is Some,
        0 <= c < grid_across(ifd),
        0 <= r < grid_down(ifd),
        grid_across(ifd) <= i32::MAX,
        grid_down(ifd) <= i32::MAX,
    ensures
        ({
            let across = grid_across(ifd);
            let k = r * across + c;
            &&& 0 <= k < ifd_refs(url, idx, ifd).len()
            &&& ifd_refs(url, idx, ifd)[k].tile_col == c as i32
            &&& ifd_refs(url, idx, ifd)[k].tile_row == r as i32
            &&& forall|k2: int|
                0 <= k2 < ifd_refs(url, idx, ifd).len() && k2 != k ==> !(
                #[trigger] ifd_refs(url, idx, ifd)[k2].tile_col == c as i32 && ifd_refs(
                    url,
                    idx,
                    ifd,
                )[k2].tile_row == r as i32)
        }),
{
    let (w, h) = tile_size(ifd).unwrap();
    let across = tiles_needed(ifd.image_width, w);
    let down = tiles_needed(ifd.image_height, h);
    let k = r * across + c;
    assert(across > 0);
    assert(k < across * down) by (nonlinear_arith)
        requires
            0 <= c < across,
            0 <= r < down,
            k == r * across + c,
    ;
    assert(k % across == c && k / across == r) by (nonlinear_arith)
        requires
            0 <= c < across,
            0 <= r,
            k == r * across + c,
    ;
    assert forall|k2: int|
        0 <= k2 < ifd_refs(url, idx, ifd).len() && k2 != k implies !(
        #[trigger] ifd_refs(url, idx, ifd)[k2].tile_col == c as i32 && ifd_refs(url, idx, ifd)[k2].tile_row
            == r as i32) by {
        let refs = ifd_refs(url, idx, ifd);
        assert(k2 < across * down);
        assert(0 <= k2 % across < across && 0 <= k2 / across < down) by (nonlinear_arith)
            requires
                across > 0,
                0 <= k2 < across * down,
        ;
        if refs[k2].tile_col == c as i32 && refs[k2].tile_row == r as i32 {
            assert(k2 % across == c);
            assert(k2 / across == r);
            assert(k2 == (k2 / across) * across + k2 % across) by (nonlinear_arith)
                requires
                    across > 0,
            ;
            assert(k2 == r * across + c);
        }
    }
}

} // verus!

verus! {

/// Casting to an R integer keeps apart the values of a 32-bit unsigned
/// range.
proof fn lemma_r_integer_cast_injective(x: int, y: int)
    requires
        0 <= x <= u32::MAX,
        0 <= y <= u32::MAX,
        x as i32 == y as i32,
    ensures
        x == y,
{
    let a = x as u32;
    let b = y as u32;
    assert(a as i32 == b as i32 ==> a == b) by (bit_vector);
    assert(a as i32 == x as i32 && b as i32 == y as i32);
}

/// Every reference row of a file names the file and one of its
/// directories, which is returned.
pub proof fn lemma_refs_name_a_directory(url: Seq<char>, ifds: Seq<IfdMeta>, k: int) -> (d: int)
    requires
        0 <= k < file_refs(url, ifds).len(),
    ensures
        0 <= d < ifds.len(),
        file_refs(url, ifds)[k].ifd == d as i32,
        file_refs(url, ifds)[k].path == url,
    decreases ifds.len(),
{
    let front = ifds.drop_last();
    let a = file_refs(url, front);
    if k < a.len() {
        let d = lemma_refs_name_a_directory(url, front, k);
        assert(file_refs(url, ifds)[k] == a[k]);
        d
    } else {
        let last = ifds.len() - 1;
        assert(file_refs(url, ifds)[k].ifd == last as i32);
        last
    }
}

/// No two reference rows of a file name the same tile: rows that agree on
/// the directory, the tile column and the tile row are the same row.
pub proof fn lemma_refs_name_distinct_tiles(url: Seq<char>, ifds: Seq<IfdMeta>, k1: int, k2: int)
    requires
        all_scan_fit(ifds),
        ifds.len() <= u32::MAX + 1,
        0 <= k1 < file_refs(url, ifds).len(),
        0 <= k2 < file_refs(url, ifds).len(),
        file_refs(url, ifds)[k1].ifd == file_refs(url, ifds)[k2].ifd,
        file_refs(url, ifds)[k1].tile_col == file_refs(url, ifds)[k2].tile_col,
        file_refs(url, ifds)[k1].tile_row == file_refs(url, ifds)[k2].tile_row,
    ensures
        k1 == k2,
    decreases ifds.len(),
{
    let refs = file_refs(url, ifds);
    let front = ifds.drop_last();
    let a = file_refs(url, front);
    let last = ifds.len() - 1;
    let ifd = ifds.last();
    let b = ifd_refs(url, last, &ifd);
    assert(refs == a + b);
    assert(all_scan_fit(front)) by {
        assert forall|i: int| 0 <= i < front.len() implies scan_fits(#[trigger] &front[i]) by {
            assert(front[i] == ifds[i]);
        }
    }
    if k1 < a.len() && k2 < a.len() {
        assert(refs[k1] == a[k1] && refs[k2] == a[k2]);
        lemma_refs_name_distinct_tiles(url, front, k1, k2);
    } else if k1 >= a.len() && k2 >= a.len() {
        let j1 = k1 - a.len();
        let j2 = k2 - a.len();
        assert(refs[k1] == b[j1] && refs[k2] == b[j2]);
        assert(scan_fits(&ifds[last]));
        let (w, h) = tile_size(&ifd).unwrap();
        let across = tiles_needed(ifd.image_width, w);
        let down = tiles_needed(ifd.image_height, h);
        assert(b.len() == across * down);
        assert(across > 0 && down > 0) by (nonlinear_arith)
            requires
                across >= 0,
                down >= 0,
                0 <= j1 < across * down,
        ;
        assert(across * down <= u32::MAX);
        assert(across <= u32::MAX && down <= u32::MAX) by (nonlinear_arith)
            requires
                across > 0,
                down > 0,
                across * down <= u32::MAX,
        ;
        assert(0 <= j1 % across < across && 0 <= j1 / across < down && 0 <= j2 % across < across
            && 0 <= j2 / across < down) by (nonlinear_arith)
            requires
                across > 0,
                0 <= j1 < across * down,
                0 <= j2 < across * down,
        ;
        lemma_r_integer_cast_injective(j1 % across, j2 % across);
        lemma_r_integer_cast_injective(j1 / across, j2 / across);
        assert(j1 == (j1 / across) * across + j1 % across && j2 == (j2 / across) * across + j2
            % across) by (nonlinear_arith)
            requires
                across > 0,
        ;
    } else {
        let (ka, kb) = if k1 < a.len() { (k1, k2) } else { (k2, k1) };
        let d = lemma_refs_name_a_directory(url, front, ka);
        assert(refs[ka] == a[ka]);
        assert(refs[kb] == b[kb - a.len()]);
        assert(refs[kb].ifd == last as i32);
        lemma_r_integer_cast_injective(d, last);
    }
}

} // verus!

verus! {

/// A row carries the metadata of the directory it was read from: the
/// image size, the directory's tags (compression, bits and samples per
/// pixel, planar configuration, nodata) and CRS, the dtype of its first
/// band, and the pixel size (`ModelPixelScale` elements 0 and 1) and
/// origin (`ModelTiepoint` elements 3 and 4).
pub open spec fn ref_row_describes(row: RefRow, url: Seq<char>, d: int, ifd: IfdMeta) -> bool {
    let sf = ifd.sample_format@;
    let bps = ifd.bits_per_sample@;
    let kind = if sf.len() > 0 { sf[0] } else { SampleKind::Uint };
    let bits: u16 = if bps.len() > 0 { bps[0] } else { 8 };
    &&& row.path == url
    &&& row.ifd == d as i32
    &&& row.image_w == ifd.image_width as i32
    &&& row.image_h == ifd.image_height as i32
    &&& row.dtype == dtype_text(kind, bits)
    &&& row.compression == ifd.compression@
    &&& row.bits_per_sample == bits as i32
    &&& row.samples_per_pixel == ifd.samples_per_pixel as i32
    &&& (ifd.projected_type matches Some(c) ==> row.crs_epsg == c as i32)
    &&& (ifd.projected_type is None ==> (ifd.geographic_type matches Some(c) ==> row.crs_epsg == c as i32))
    &&& (ifd.projected_type is None && ifd.geographic_type is None ==> row.crs_epsg == i32::MIN)
    &&& row.gdal_nodata == opt_string(ifd.gdal_nodata)
    &&& row.planar_configuration == ifd.planar_configuration@
    &&& row.scale_x == opt_elem(ifd.model_pixel_scale, 0)
    &&& row.scale_y == opt_elem(ifd.model_pixel_scale, 1)
    &&& row.origin_x == opt_elem(ifd.model_tiepoint, 3)
    &&& row.origin_y == opt_elem(ifd.model_tiepoint, 4)
}

/// Reference row `k` of a file is row `m` of directory `d`; `(d, m)` is
/// returned.
proof fn lemma_ref_position(url: Seq<char>, ifds: Seq<IfdMeta>, k: int) -> (dm: (int, int))
    requires
        0 <= k < file_refs(url, ifds).len(),
    ensures
        0 <= dm.0 < ifds.len(),
        0 <= dm.1 < ifd_refs(url, dm.0, &ifds[dm.0]).len(),
        file_refs(url, ifds)[k] == ifd_refs(url, dm.0, &ifds[dm.0])[dm.1],
    decreases ifds.len(),
{
    let front = ifds.drop_last();
    let a = file_refs(url, front);
    if k < a.len() {
        let (d, m) = lemma_ref_position(url, front, k);
        assert(front[d] == ifds[d]);
        (d, m)
    } else {
        (ifds.len() - 1, k - a.len())
    }
}

/// Every reference row of a file describes one tile of one tiled
/// directory `d`, at position `m` of that directory's tiles (returned as
/// `(d, m)`): the directory has positive tile sizes, which the row
/// carries, and tile offsets and byte counts, of which the row carries
/// element `m` (0 past the end); the row carries the directory's metadata;
/// and, when the grid fits in R integers, the row's tile column and row lie
/// in the grid (as many columns as tiles needed to cover the image width)
/// and `m` is the tile's row-major position.
pub proof fn lemma_ref_rows_describe_their_tile(url: Seq<char>, ifds: Seq<IfdMeta>, k: int) -> (dm: (
    int,
    int,
))
    requires
        0 <= k < file_refs(url, ifds).len(),
    ensures
        ({
            let row = file_refs(url, ifds)[k];
            let (d, m) = dm;
            let ifd = ifds[d];
            let w = ifd.tile_width.unwrap();
            let h = ifd.tile_height.unwrap();
            let across = (ifd.image_width + w - 1) / (w as int);
            let down = (ifd.image_height + h - 1) / (h as int);
            &&& 0 <= d < ifds.len()
            &&& 0 <= m
            &&& ifd.tile_width is Some && ifd.tile_height is Some && w > 0 && h > 0
            &&& row.tile_w == w as i32
            &&& row.tile_h == h as i32
            &&& ifd.tile_offsets matches Some(v) && row.offset == if m < v@.len() { v@[m] } else { 0 }
            &&& ifd.tile_byte_counts matches Some(v) && row.length == if m < v@.len() { v@[m] } else { 0 }
            &&& ref_row_describes(row, url, d, ifd)
            &&& (across <= i32::MAX && down <= i32::MAX) ==> {
                &&& 0 <= row.tile_col < across
                &&& 0 <= row.tile_row < down
                &&& m == row.tile_row * across + row.tile_col
            }
        }),
{
    let (d, m) = lemma_ref_position(url, ifds, k);
    let ifd = ifds[d];
    let row = file_refs(url, ifds)[k];
    let refs = ifd_refs(url, d, &ifd);
    assert(tile_size(&ifd) is Some);
    let (w, h) = tile_size(&ifd).unwrap();
    let across = tiles_needed(ifd.image_width, w);
    let down = tiles_needed(ifd.image_height, h);
    assert(row == tile_ref(url, d, &ifd, m));
    assert(ifd.tile_offsets is Some && ifd.tile_byte_counts is Some);
    assert(refs.len() == across * down);
    if across <= i32::MAX && down <= i32::MAX {
        assert(across > 0) by (nonlinear_arith)
            requires
                across >= 0,
                down >= 0,
                0 <= m < across * down,
        ;
        assert(0 <= m % across < across && 0 <= m / across < down) by (nonlinear_arith)
            requires
                across > 0,
                0 <= m < across * down,
        ;
        assert(m == (m / across) * across + m % across) by (nonlinear_arith)
            requires
                across > 0,
        ;
    }
    (d, m)
}

} // verus!

verus! {

/// Merging per-file scan results file by file: the rows of two runs of
/// results are those of the first followed by those of the second; a file
/// that was read gives its table's rows, one that failed gives none.
pub proof fn lemma_merged_rows_concat(
    a: Seq<Result<RefColumns, String>>,
    b: Seq<Result<RefColumns, String>>,
)
    ensures
        merged_rows(a + b) == merged_rows(a) + merged_rows(b),
        forall|c: RefColumns| merged_rows(seq![Ok::<RefColumns, String>(c)]) == #[trigger] c.rows(),
        forall|m: String| #[trigger] merged_rows(seq![Err::<RefColumns, String>(m)]) == Seq::<RefRow>::empty(),
    decreases b.len(),
{
    assert forall|c: RefColumns| merged_rows(seq![Ok::<RefColumns, String>(c)]) == #[trigger] c.rows() by {
        let s = seq![Ok::<RefColumns, String>(c)];
        assert(s.drop_last() =~= Seq::<Result<RefColumns, String>>::empty());
        assert(s.len() == 1 && s.last() == Ok::<RefColumns, String>(c));
        assert(merged_rows(s.drop_last()) == Seq::<RefRow>::empty());
        assert(Seq::<RefRow>::empty() + c.rows() =~= c.rows());
    }
    assert forall|m: String| #[trigger] merged_rows(seq![Err::<RefColumns, String>(m)]) == Seq::<
        RefRow,
    >::empty() by {
        let s = seq![Err::<RefColumns, String>(m)];
        assert(s.drop_last() =~= Seq::<Result<RefColumns, String>>::empty());
        assert(s.len() == 1 && s.last() == Err::<RefColumns, String>(m));
        assert(merged_rows(s.drop_last()) == Seq::<RefRow>::empty());
    }
    if b.len() == 0 {
        assert(a + b =~= a);
        assert(merged_rows(a) + Seq::<RefRow>::empty() =~= merged_rows(a));
    } else {
        lemma_merged_rows_concat(a, b.drop_last());
        assert((a + b).drop_last() =~= a + b.drop_last());
        assert((a + b).last() == b.last());
        let tail = match b.last() {
            Ok(c) => c.rows(),
            Err(_) => Seq::<RefRow>::empty(),
        };
        assert(merged_rows(a) + merged_rows(b.drop_last()) + tail =~= merged_rows(a) + (merged_rows(
            b.drop_last(),
        ) + tail));
    }
}

/// Collecting failure messages file by file: the messages of two runs of
/// results are those of the first followed by those of the second; a file
/// that was read gives none, one that failed gives its message.
pub proof fn lemma_failure_messages_concat<T>(a: Seq<Result<T, String>>, b: Seq<Result<T, String>>)
    ensures
        failure_messages(a + b) == failure_messages(a) + failure_messages(b),
        forall|c: T| #[trigger] failure_messages(seq![Ok::<T, String>(c)]) == Seq::<Seq<char>>::empty(),
        forall|m: String| #[trigger] failure_messages(seq![Err::<T, String>(m)]) == seq![m@],
    decreases b.len(),
{
    assert forall|c: T| #[trigger] failure_messages(seq![Ok::<T, String>(c)]) == Seq::<Seq<char>>::empty() by {
        let s = seq![Ok::<T, String>(c)];
        assert(s.drop_last() =~= Seq::<Result<T, String>>::empty());
        assert(s.len() == 1 && s.last() == Ok::<T, String>(c));
        assert(failure_messages(s.drop_last()) == Seq::<Seq<char>>::empty());
    }
    assert forall|m: String| #[trigger] failure_messages(seq![Err::<T, String>(m)]) == seq![m@] by {
        let s = seq![Err::<T, String>(m)];
        assert(s.drop_last() =~= Seq::<Result<T, String>>::empty());
        assert(s.len() == 1 && s.last() == Err::<T, String>(m));
        assert(failure_messages(s.drop_last()) == Seq::<Seq<char>>::empty());
        assert(Seq::<Seq<char>>::empty().push(m@) =~= seq![m@]);
    }
    if b.len() == 0 {
        assert(a + b =~= a);
        assert(failure_messages(a) + Seq::<Seq<char>>::empty() =~= failure_messages(a));
    } else {
        lemma_failure_messages_concat(a, b.drop_last());
        assert((a + b).drop_last() =~= a + b.drop_last());
        assert((a + b).last() == b.last());
        match b.last() {
            Ok(_) => {},
            Err(m) => {
                assert((failure_messages(a) + failure_messages(b.drop_last())).push(m@)
                    =~= failure_messages(a) + failure_messages(b.drop_last()).push(m@));
            },
        }
    }
}

/// A CRS code reaches R as itself, and the code of a directory without a
/// CRS as a missing value.
pub proof fn lemma_epsg_for_r(code: i32)
    ensures
        code == i32::MIN ==> epsg_for_r(code) is None,
        code != i32::MIN ==> epsg_for_r(code) == Some(code),
{
}

} // verus!
