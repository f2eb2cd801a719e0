//! The directory summary: one row per image file directory of every
//! scanned file, without expanding tiles.
use vstd::prelude::*;
use vstd::string::*;
use crate::dtype::{bits_fit, dtype_text, first_bits, first_sample_kind, format_dtype};
use crate::ifd::{
    IfdMeta, epsg_code, epsg_of, first_bits_i32, get_opt_elem, opt_elem, reader_tile_count,
    tile_grid, tile_size,
};
use crate::refs::{
    RefColumns, RefRow, failure_messages, file_refs, grid_across, grid_down, ifd_refs,
    lemma_refs_name_a_directory, merged_rows, texts,
};
use crate::text::opt_string;

verus! {

/// One row of the directory summary, as mathematical values.
pub struct IfdInfoRow {
    pub path: Seq<char>,
    pub ifd: i32,
    pub is_tiled: bool,
    pub image_w: i32,
    pub image_h: i32,
    pub tile_w: i32,
    pub tile_h: i32,
    pub n_tiles_x: i32,
    pub n_tiles_y: i32,
    pub dtype: Seq<char>,
    pub compression: Seq<char>,
    pub bits_per_sample: i32,
    pub samples_per_pixel: i32,
    pub photometric: Seq<char>,
    pub predictor: Option<Seq<char>>,
    pub planar_configuration: Seq<char>,
    pub crs_epsg: i32,
    pub gdal_nodata: Option<Seq<char>>,
    pub scale_x: Option<u64>,
    pub scale_y: Option<u64>,
    pub origin_x: Option<u64>,
    pub origin_y: Option<u64>,
}

/// One row of the directory summary.
pub struct IfdInfoRecord {
    pub path: String,
    pub ifd: i32,
    pub is_tiled: bool,
    pub image_w: i32,
    pub image_h: i32,
    pub tile_w: i32,
    pub tile_h: i32,
    pub n_tiles_x: i32,
    pub n_tiles_y: i32,
    pub dtype: String,
    pub compression: String,
    pub bits_per_sample: i32,
    pub samples_per_pixel: i32,
    pub photometric: String,
    pub predictor: Option<String>,
    pub planar_configuration: String,
    pub crs_epsg: i32,
    pub gdal_nodata: Option<String>,
    pub scale_x: Option<u64>,
    pub scale_y: Option<u64>,
    pub origin_x: Option<u64>,
    pub origin_y: Option<u64>,
}

impl View for IfdInfoRecord {
    type V = IfdInfoRow;

    open spec fn view(&self) -> IfdInfoRow {
        IfdInfoRow {
            path: self.path@,
            ifd: self.ifd,
            is_tiled: self.is_tiled,
            image_w: self.image_w,
            image_h: self.image_h,
            tile_w: self.tile_w,
            tile_h: self.tile_h,
            n_tiles_x: self.n_tiles_x,
            n_tiles_y: self.n_tiles_y,
            dtype: self.dtype@,
            compression: self.compression@,
            bits_per_sample: self.bits_per_sample,
            samples_per_pixel: self.samples_per_pixel,
            photometric: self.photometric@,
            predictor: opt_string(self.predictor),
            planar_configuration: self.planar_configuration@,
            crs_epsg: self.crs_epsg,
            gdal_nodata: opt_string(self.gdal_nodata),
            scale_x: self.scale_x,
            scale_y: self.scale_y,
            origin_x: self.origin_x,
            origin_y: self.origin_y,
        }
    }
}

/// The directory summary, column by column.  The geotransform columns
/// hold IEEE-754 bit patterns.
pub struct IfdInfoColumns {
    pub path: Vec<String>,
    pub ifd: Vec<i32>,
    pub is_tiled: Vec<bool>,
    pub image_w: Vec<i32>,
    pub image_h: Vec<i32>,
    pub tile_w: Vec<i32>,
    pub tile_h: Vec<i32>,
    pub n_tiles_x: Vec<i32>,
    pub n_tiles_y: Vec<i32>,
    pub dtype: Vec<String>,
    pub compression: Vec<String>,
    pub bits_per_sample: Vec<i32>,
    pub samples_per_pixel: Vec<i32>,
    pub photometric: Vec<String>,
    pub predictor: Vec<Option<String>>,
    pub planar_configuration: Vec<String>,
    pub crs_epsg: Vec<i32>,
    pub gdal_nodata: Vec<Option<String>>,
    pub scale_x: Vec<Option<u64>>,
    pub scale_y: Vec<Option<u64>>,
    pub origin_x: Vec<Option<u64>>,
    pub origin_y: Vec<Option<u64>>,
}

impl IfdInfoColumns {
    /// All columns have the same length.
    pub open spec fn wf(&self) -> bool {
        let n = self.path.len();
        &&& self.ifd.len() == n
        &&& self.is_tiled.len() == n
        &&& self.image_w.len() == n
        &&& self.image_h.len() == n
        &&& self.tile_w.len() == n
        &&& self.tile_h.len() == n
        &&& self.n_tiles_x.len() == n
        &&& self.n_tiles_y.len() == n
        &&& self.dtype.len() == n
        &&& self.compression.len() == n
        &&& self.bits_per_sample.len() == n
        &&& self.samples_per_pixel.len() == n
        &&& self.photometric.len() == n
        &&& self.predictor.len() == n
        &&& self.planar_configuration.len() == n
        &&& self.crs_epsg.len() == n
        &&& self.gdal_nodata.len() == n
        &&& self.scale_x.len() == n
        &&& self.scale_y.len() == n
        &&& self.origin_x.len() == n
        &&& self.origin_y.len() == n
    }

    /// Row `i` of the summary.
    pub open spec fn row(&self, i: int) -> IfdInfoRow {
        IfdInfoRow {
            path: self.path@[i]@,
            ifd: self.ifd@[i],
            is_tiled: self.is_tiled@[i],
            image_w: self.image_w@[i],
            image_h: self.image_h@[i],
            tile_w: self.tile_w@[i],
            tile_h: self.tile_h@[i],
            n_tiles_x: self.n_tiles_x@[i],
            n_tiles_y: self.n_tiles_y@[i],
            dtype: self.dtype@[i]@,
            compression: self.compression@[i]@,
            bits_per_sample: self.bits_per_sample@[i],
            samples_per_pixel: self.samples_per_pixel@[i],
            photometric: self.photometric@[i]@,
            predictor: opt_string(self.predictor@[i]),
            planar_configuration: self.planar_configuration@[i]@,
            crs_epsg: self.crs_epsg@[i],
            gdal_nodata: opt_string(self.gdal_nodata@[i]),
            scale_x: self.scale_x@[i],
            scale_y: self.scale_y@[i],
            origin_x: self.origin_x@[i],
            origin_y: self.origin_y@[i],
        }
    }

    /// The summary's rows, in order.
    pub open spec fn rows(&self) -> Seq<IfdInfoRow> {
        Seq::new(self.path.len() as nat, |i: int| self.row(i))
    }

    /// An empty summary.
    pub fn new() -> (r: Self)
        ensures
            r.wf(),
            r.rows() == Seq::<IfdInfoRow>::empty(),
    {
        let r = IfdInfoColumns {
            path: Vec::new(),
            ifd: Vec::new(),
            is_tiled: Vec::new(),
            image_w: Vec::new(),
            image_h: Vec::new(),
            tile_w: Vec::new(),
            tile_h: Vec::new(),
            n_tiles_x: Vec::new(),
            n_tiles_y: Vec::new(),
            dtype: Vec::new(),
            compression: Vec::new(),
            bits_per_sample: Vec::new(),
            samples_per_pixel: Vec::new(),
            photometric: Vec::new(),
            predictor: Vec::new(),
            planar_configuration: Vec::new(),
            crs_epsg: Vec::new(),
            gdal_nodata: Vec::new(),
            scale_x: Vec::new(),
            scale_y: Vec::new(),
            origin_x: Vec::new(),
            origin_y: Vec::new(),
        };
        assert(r.rows() =~= Seq::<IfdInfoRow>::empty());
        r
    }

    /// The number of rows.
    pub fn len(&self) -> (n: usize)
        requires
            self.wf(),
        ensures
            n == self.rows().len(),
    {
        self.path.len()
    }

    /// Appends one row.
    pub fn push(&mut self, rec: IfdInfoRecord)
        requires
            old(self).wf(),
        ensures
            final(self).wf(),
            final(self).rows() == old(self).rows().push(rec@),
    {
        let ghost before = self.rows();
        self.path.push(rec.path);
        self.ifd.push(rec.ifd);
        self.is_tiled.push(rec.is_tiled);
        self.image_w.push(rec.image_w);
        self.image_h.push(rec.image_h);
        self.tile_w.push(rec.tile_w);
        self.tile_h.push(rec.tile_h);
        self.n_tiles_x.push(rec.n_tiles_x);
        self.n_tiles_y.push(rec.n_tiles_y);
        self.dtype.push(rec.dtype);
        self.compression.push(rec.compression);
        self.bits_per_sample.push(rec.bits_per_sample);
        self.samples_per_pixel.push(rec.samples_per_pixel);
        self.photometric.push(rec.photometric);
        self.predictor.push(rec.predictor);
        self.planar_configuration.push(rec.planar_configuration);
        self.crs_epsg.push(rec.crs_epsg);
        self.gdal_nodata.push(rec.gdal_nodata);
        self.scale_x.push(rec.scale_x);
        self.scale_y.push(rec.scale_y);
        self.origin_x.push(rec.origin_x);
        self.origin_y.push(rec.origin_y);
        assert(self.rows() =~= before.push(rec@));
    }

    /// Appends all rows of `other`, in order.
    pub fn extend(&mut self, other: IfdInfoColumns)
        requires
            old(self).wf(),
            other.wf(),
        ensures
            final(self).wf(),
            final(self).rows() == old(self).rows() + other.rows(),
    {
        let ghost before = self.rows();
        let ghost added = other.rows();
        let mut other = other;
        self.path.append(&mut other.path);
        self.ifd.append(&mut other.ifd);
        self.is_tiled.append(&mut other.is_tiled);
        self.image_w.append(&mut other.image_w);
        self.image_h.append(&mut other.image_h);
        self.tile_w.append(&mut other.tile_w);
        self.tile_h.append(&mut other.tile_h);
        self.n_tiles_x.append(&mut other.n_tiles_x);
        self.n_tiles_y.append(&mut other.n_tiles_y);
        self.dtype.append(&mut other.dtype);
        self.compression.append(&mut other.compression);
        self.bits_per_sample.append(&mut other.bits_per_sample);
        self.samples_per_pixel.append(&mut other.samples_per_pixel);
        self.photometric.append(&mut other.photometric);
        self.predictor.append(&mut other.predictor);
        self.planar_configuration.append(&mut other.planar_configuration);
        self.crs_epsg.append(&mut other.crs_epsg);
        self.gdal_nodata.append(&mut other.gdal_nodata);
        self.scale_x.append(&mut other.scale_x);
        self.scale_y.append(&mut other.scale_y);
        self.origin_x.append(&mut other.origin_x);
        self.origin_y.append(&mut other.origin_y);
        assert(self.rows() =~= before + added);
    }
}

/// Whether a directory is tiled: its tile width is present and positive.
pub open spec fn is_tiled(ifd: &IfdMeta) -> bool {
    match ifd.tile_width {
        Some(w) => w > 0,
        None => false,
    }
}

/// The summary row of directory `idx` of the file at `url`.
pub open spec fn ifd_info_row(url: Seq<char>, idx: int, ifd: &IfdMeta) -> IfdInfoRow {
    let (nx, ny, tw, th) = match reader_tile_count(ifd) {
        Some((nx, ny)) => (
            nx as i32,
            ny as i32,
            match ifd.tile_width { Some(w) => w as i32, None => 0i32 },
            match ifd.tile_height { Some(h) => h as i32, None => 0i32 },
        ),
        None => (0i32, 0i32, 0i32, 0i32),
    };
    IfdInfoRow {
        path: url,
        ifd: idx as i32,
        is_tiled: is_tiled(ifd),
        image_w: ifd.image_width as i32,
        image_h: ifd.image_height as i32,
        tile_w: tw,
        tile_h: th,
        n_tiles_x: nx,
        n_tiles_y: ny,
        dtype: dtype_text(first_sample_kind(ifd.sample_format@), first_bits(ifd.bits_per_sample@)),
        compression: ifd.compression@,
        bits_per_sample: first_bits(ifd.bits_per_sample@) as i32,
        samples_per_pixel: ifd.samples_per_pixel as i32,
        photometric: ifd.photometric@,
        predictor: opt_string(ifd.predictor),
        planar_configuration: ifd.planar_configuration@,
        crs_epsg: epsg_of(ifd),
        gdal_nodata: opt_string(ifd.gdal_nodata),
        scale_x: opt_elem(ifd.model_pixel_scale, 0),
        scale_y: opt_elem(ifd.model_pixel_scale, 1),
        origin_x: opt_elem(ifd.model_tiepoint, 3),
        origin_y: opt_elem(ifd.model_tiepoint, 4),
    }
}

/// The summary rows of a file: one per directory, in directory order.
pub open spec fn file_ifd_info(url: Seq<char>, ifds: Seq<IfdMeta>) -> Seq<IfdInfoRow> {
    Seq::new(ifds.len(), |i: int| ifd_info_row(url, i, &ifds[i]))
}

/// Every directory's dtype can be computed.
pub open spec fn all_bits_fit(ifds: Seq<IfdMeta>) -> bool {
    forall|i: int| 0 <= i < ifds.len() ==> bits_fit(first_bits(#[trigger] ifds[i].bits_per_sample@))
}

fn clone_opt_string(o: &Option<String>) -> (r: Option<String>)
    ensures
        opt_string(r) == opt_string(*o),
{
    match o {
        Some(s) => Some(s.clone()),
        None => None,
    }
}

/// The summary row of directory `idx` of the file at `url_str`.
fn ifd_info_record(url_str: &str, idx: usize, ifd: &IfdMeta) -> (r: IfdInfoRecord)
    requires
        bits_fit(first_bits(ifd.bits_per_sample@)),
    ensures
        r@ == ifd_info_row(url_str@, idx as int, ifd),
{
    let tiled = match ifd.tile_width {
        Some(w) => w > 0,
        None => false,
    };
    let (nx, ny, tw, th): (i32, i32, i32, i32) = match tile_grid(ifd) {
        Some((nx, ny)) => (
            nx as i32,
            ny as i32,
            match ifd.tile_width { Some(w) => w as i32, None => 0 },
            match ifd.tile_height { Some(h) => h as i32, None => 0 },
        ),
        None => (0, 0, 0, 0),
    };
    let r = IfdInfoRecord {
        path: String::from_str(url_str),
        ifd: idx as i32,
        is_tiled: tiled,
        image_w: ifd.image_width as i32,
        image_h: ifd.image_height as i32,
        tile_w: tw,
        tile_h: th,
        n_tiles_x: nx,
        n_tiles_y: ny,
        dtype: format_dtype(ifd.sample_format.as_slice(), ifd.bits_per_sample.as_slice()),
        compression: ifd.compression.clone(),
        bits_per_sample: first_bits_i32(ifd),
        samples_per_pixel: ifd.samples_per_pixel as i32,
        photometric: ifd.photometric.clone(),
        predictor: clone_opt_string(&ifd.predictor),
        planar_configuration: ifd.planar_configuration.clone(),
        crs_epsg: epsg_code(ifd),
        gdal_nodata: clone_opt_string(&ifd.gdal_nodata),
        scale_x: get_opt_elem(&ifd.model_pixel_scale, 0),
        scale_y: get_opt_elem(&ifd.model_pixel_scale, 1),
        origin_x: get_opt_elem(&ifd.model_tiepoint, 3),
        origin_y: get_opt_elem(&ifd.model_tiepoint, 4),
    };
    r
}

/// The directory summary of one file at `url_str` with directories `ifds`.
pub fn ifd_info_from_ifds(url_str: &str, ifds: &[IfdMeta]) -> (r: IfdInfoColumns)
    requires
        all_bits_fit(ifds@),
    ensures
        r.wf(),
        r.rows() == file_ifd_info(url_str@, ifds@),
{
    let mut cols = IfdInfoColumns::new();
    let mut i: usize = 0;
    while i < ifds.len()
        invariant
            i <= ifds.len(),
            all_bits_fit(ifds@),
            cols.wf(),
            cols.rows() == file_ifd_info(url_str@, ifds@).take(i as int),
        decreases ifds.len() - i,
    {
        assert(bits_fit(first_bits(ifds@[i as int].bits_per_sample@)));
        let rec = ifd_info_record(url_str, i, &ifds[i]);
        cols.push(rec);
        assert(file_ifd_info(url_str@, ifds@).take(i + 1)
            =~= file_ifd_info(url_str@, ifds@).take(i as int).push(
            ifd_info_row(url_str@, i as int, &ifds@[i as int]),
        ));
        i = i + 1;
    }
    assert(file_ifd_info(url_str@, ifds@).take(ifds.len() as int) =~= file_ifd_info(url_str@, ifds@));
    cols
}

/// The rows of the successfully summarised files, in the order of
/// `results`.
pub open spec fn merged_info_rows(results: Seq<Result<IfdInfoColumns, String>>) -> Seq<IfdInfoRow>
    decreases results.len(),
{
    if results.len() == 0 {
        Seq::empty()
    } else {
        merged_info_rows(results.drop_last()) + match results.last() {
            Ok(c) => c.rows(),
            Err(_) => Seq::empty(),
        }
    }
}

/// Every successful result is a well-formed summary.
pub open spec fn all_summaries_wf(results: Seq<Result<IfdInfoColumns, String>>) -> bool {
    forall|i: int| 0 <= i < results.len() ==> (#[trigger] results[i] matches Ok(c) ==> c.wf())
}

/// Merges the per-file summaries: those of the files that were read,
/// concatenated in order, and the messages of those that failed.
pub fn merge_info_results(results: Vec<Result<IfdInfoColumns, String>>) -> (r: (IfdInfoColumns, Vec<String>))
    requires
        all_summaries_wf(results@),
    ensures
        r.0.wf(),
        r.0.rows() == merged_info_rows(results@),
        texts(r.1@) == failure_messages(results@),
{
    let ghost all = results@;
    let mut merged = IfdInfoColumns::new();
    let mut errs: Vec<String> = Vec::new();
    for result in it: results.into_iter()
        invariant
            all == it.seq(),
            all_summaries_wf(all),
            merged.wf(),
            merged.rows() == merged_info_rows(all.take(it.index() as int)),
            texts(errs@) == failure_messages(all.take(it.index() as int)),
    {
        let ghost k = it.index() as int;
        assert(all.take(k + 1).drop_last() =~= all.take(k));
        assert(all.take(k + 1).last() == all[k]);
        match result {
            Ok(c) => {
                assert(c.wf());
                merged.extend(c);
            },
            Err(e) => {
                errs.push(e);
                assert(texts(errs@) =~= failure_messages(all.take(k)).push(all[k]->Err_0@));
            },
        }
    }
    assert(all.take(all.len() as int) =~= all);
    (merged, errs)
}

} // verus!

verus! {

/// The metadata that a summary row and a reference row of one directory
/// both carry are the same.
pub open spec fn same_metadata(row: IfdInfoRow, r: RefRow) -> bool {
    &&& r.path == row.path
    &&& r.ifd == row.ifd
    &&& r.image_w == row.image_w
    &&& r.image_h == row.image_h
    &&& r.tile_w == row.tile_w
    &&& r.tile_h == row.tile_h
    &&& r.dtype == row.dtype
    &&& r.compression == row.compression
    &&& r.bits_per_sample == row.bits_per_sample
    &&& r.samples_per_pixel == row.samples_per_pixel
    &&& r.crs_epsg == row.crs_epsg
    &&& r.gdal_nodata == row.gdal_nodata
    &&& r.planar_configuration == row.planar_configuration
    &&& r.scale_x == row.scale_x
    &&& r.scale_y == row.scale_y
    &&& r.origin_x == row.origin_x
    &&& r.origin_y == row.origin_y
}

/// A tiled directory (both tile dimensions positive) with tile offsets and
/// byte counts whose tile grid fits in R integers.
pub open spec fn tiled_grid_fits_r(ifd: &IfdMeta) -> bool {
    &&& tile_size(ifd) is Some
    &&& ifd.tile_offsets is Some
    &&& ifd.tile_byte_counts is Some
    &&& grid_across(ifd) <= i32::MAX
    &&& grid_down(ifd) <= i32::MAX
}

/// The summary of a directory agrees with its reference rows: the summary's
/// grid (`n_tiles_x` by `n_tiles_y`) has as many tiles as the directory has
/// reference rows, every reference row's tile lies in that grid, and every
/// reference row carries the summary's metadata.
pub proof fn lemma_summary_matches_refs(url: Seq<char>, idx: int, ifd: &IfdMeta)
    requires
        tiled_grid_fits_r(ifd),
    ensures
        ({
            let row = ifd_info_row(url, idx, ifd);
            let refs = ifd_refs(url, idx, ifd);
            &&& row.is_tiled
            &&& row.n_tiles_x * row.n_tiles_y == refs.len()
            &&& forall|k: int|
                0 <= k < refs.len() ==> 0 <= (#[trigger] refs[k]).tile_col < row.n_tiles_x && 0
                    <= refs[k].tile_row < row.n_tiles_y && same_metadata(row, refs[k])
        }),
{
    let row = ifd_info_row(url, idx, ifd);
    let refs = ifd_refs(url, idx, ifd);
    let (w, h) = tile_size(ifd).unwrap();
    let across = grid_across(ifd);
    let down = grid_down(ifd);
    assert(across >= 0 && down >= 0);
    assert(row.n_tiles_x == across && row.n_tiles_y == down);
    assert(refs.len() == across * down);
    assert forall|k: int| 0 <= k < refs.len() implies 0 <= (#[trigger] refs[k]).tile_col < row.n_tiles_x
        && 0 <= refs[k].tile_row < row.n_tiles_y && same_metadata(row, refs[k]) by {
        assert(across > 0) by (nonlinear_arith)
            requires
                across >= 0,
                down >= 0,
                0 <= k < across * down,
        ;
        assert(0 <= k % across < across && 0 <= k / across < down) by (nonlinear_arith)
            requires
                across > 0,
                0 <= k < across * down,
        ;
    }
}

/// Whether a reference row belongs to directory `d` of the file at `url`.
pub open spec fn at_dir(url: Seq<char>, d: int) -> spec_fn(RefRow) -> bool {
    |r: RefRow| r.path == url && r.ifd == d as i32
}

proof fn lemma_filter_keeps_all(s: Seq<RefRow>, p: spec_fn(RefRow) -> bool)
    requires
        forall|k: int| 0 <= k < s.len() ==> p(#[trigger] s[k]),
    ensures
        s.filter(p) == s,
    decreases s.len(),
{
    reveal(Seq::filter);
    if s.len() > 0 {
        lemma_filter_keeps_all(s.drop_last(), p);
        assert(s.drop_last().push(s.last()) =~= s);
    }
}

proof fn lemma_filter_keeps_none(s: Seq<RefRow>, p: spec_fn(RefRow) -> bool)
    requires
        forall|k: int| 0 <= k < s.len() ==> !p(#[trigger] s[k]),
    ensures
        s.filter(p) == Seq::<RefRow>::empty(),
    decreases s.len(),
{
    reveal(Seq::filter);
    if s.len() > 0 {
        lemma_filter_keeps_none(s.drop_last(), p);
    }
}

/// The reference rows of a file that name it and directory `d` are those
/// of directory `d` (directories numbered as R integers).
proof fn lemma_refs_of_ifd(url: Seq<char>, ifds: Seq<IfdMeta>, d: int)
    requires
        0 <= d <= i32::MAX,
        ifds.len() <= i32::MAX + 1,
    ensures
        file_refs(url, ifds).filter(at_dir(url, d)) == if d < ifds.len() {
            ifd_refs(url, d, &ifds[d])
        } else {
            Seq::<RefRow>::empty()
        },
    decreases ifds.len(),
{
    reveal(Seq::filter);
    if ifds.len() == 0 {
        return;
    }
    let last = ifds.len() - 1;
    let front = ifds.drop_last();
    lemma_refs_of_ifd(url, front, d);
    let tail = ifd_refs(url, last, &ifds.last());
    Seq::filter_distributes_over_add(file_refs(url, front), tail, at_dir(url, d));
    if d == last {
        lemma_filter_keeps_all(tail, at_dir(url, d));
        assert(Seq::<RefRow>::empty() + tail =~= tail);
    } else {
        assert forall|k: int| 0 <= k < tail.len() implies !at_dir(url, d)(#[trigger] tail[k]) by {
            assert(tail[k].ifd == last as i32);
            assert(last as i32 != d as i32);
        }
        lemma_filter_keeps_none(tail, at_dir(url, d));
        if d < last {
            assert(front[d] == ifds[d]);
        }
        assert(file_refs(url, front).filter(at_dir(url, d)) + Seq::<RefRow>::empty() =~= file_refs(
            url,
            front,
        ).filter(at_dir(url, d)));
    }
}

/// For every tiled directory with tile offsets and byte counts whose grid
/// fits in R integers, the file's summary row agrees with the file's
/// reference rows for that directory: its grid has as many tiles as there
/// are reference rows with that directory index, and each of those lies in
/// the grid and carries the summary's metadata.
pub proof fn lemma_file_summary_matches_refs(url: Seq<char>, ifds: Seq<IfdMeta>, d: int)
    requires
        0 <= d < ifds.len(),
        ifds.len() <= i32::MAX + 1,
        tiled_grid_fits_r(&ifds[d]),
    ensures
        ({
            let row = file_ifd_info(url, ifds)[d];
            let refs = file_refs(url, ifds).filter(at_dir(url, d));
            &&& row.is_tiled
            &&& row.n_tiles_x * row.n_tiles_y == refs.len()
            &&& forall|k: int|
                0 <= k < refs.len() ==> 0 <= (#[trigger] refs[k]).tile_col < row.n_tiles_x && 0
                    <= refs[k].tile_row < row.n_tiles_y && same_metadata(row, refs[k])
        }),
{
    lemma_refs_of_ifd(url, ifds, d);
    lemma_summary_matches_refs(url, d, &ifds[d]);
}

} // verus!

verus! {

/// Every file `f` (at `paths[f]`, with directories `ifds[f]`) was scanned
/// without error into its reference rows.
pub open spec fn refs_read(
    paths: Seq<Seq<char>>,
    ifds: Seq<Seq<IfdMeta>>,
    results: Seq<Result<RefColumns, String>>,
) -> bool {
    &&& ifds.len() == paths.len()
    &&& results.len() == paths.len()
    &&& forall|f: int|
        0 <= f < results.len() ==> (#[trigger] results[f] matches Ok(c) && c.rows() == file_refs(
            paths[f],
            ifds[f],
        ))
}

/// Every file `f` (at `paths[f]`, with directories `ifds[f]`) was
/// summarised without error.
pub open spec fn info_read(
    paths: Seq<Seq<char>>,
    ifds: Seq<Seq<IfdMeta>>,
    results: Seq<Result<IfdInfoColumns, String>>,
) -> bool {
    &&& ifds.len() == paths.len()
    &&& results.len() == paths.len()
    &&& forall|f: int|
        0 <= f < results.len() ==> (#[trigger] results[f] matches Ok(c) && c.rows()
            == file_ifd_info(paths[f], ifds[f]))
}

/// No two files share a path.
pub open spec fn distinct_paths(paths: Seq<Seq<char>>) -> bool {
    forall|f1: int, f2: int|
        0 <= f1 < paths.len() && 0 <= f2 < paths.len() && f1 != f2 ==> #[trigger] paths[f1]
            != #[trigger] paths[f2]
}

/// Every file's directories can be numbered as R integers, and every tiled
/// directory's grid fits in R integers.
pub open spec fn grids_fit_r(ifds: Seq<Seq<IfdMeta>>) -> bool {
    forall|f: int, d: int|
        0 <= f < ifds.len() && 0 <= d < ifds[f].len() ==> {
            &&& ifds[f].len() <= i32::MAX + 1
            &&& tile_size(&#[trigger] ifds[f][d]) is Some ==> grid_across(&ifds[f][d]) <= i32::MAX
                && grid_down(&ifds[f][d]) <= i32::MAX
        }
}

proof fn lemma_merged_refs_step(results: Seq<Result<RefColumns, String>>, m: int)
    requires
        0 < m <= results.len(),
    ensures
        merged_rows(results.take(m)) == merged_rows(results.take(m - 1)) + match results[m - 1] {
            Ok(c) => c.rows(),
            Err(_) => Seq::empty(),
        },
{
    assert(results.take(m).drop_last() =~= results.take(m - 1));
    assert(results.take(m).last() == results[m - 1]);
}

proof fn lemma_merged_info_step(results: Seq<Result<IfdInfoColumns, String>>, m: int)
    requires
        0 < m <= results.len(),
    ensures
        merged_info_rows(results.take(m)) == merged_info_rows(results.take(m - 1)) + match results[m
            - 1] {
            Ok(c) => c.rows(),
            Err(_) => Seq::empty(),
        },
{
    assert(results.take(m).drop_last() =~= results.take(m - 1));
    assert(results.take(m).last() == results[m - 1]);
}

/// Reference row `k` of the first `m` files comes from a file `f` before
/// `m` and names it and one of its directories `d`; `(f, d)` is returned.
proof fn lemma_ref_origin(
    paths: Seq<Seq<char>>,
    ifds: Seq<Seq<IfdMeta>>,
    results: Seq<Result<RefColumns, String>>,
    m: int,
    k: int,
) -> (fd: (int, int))
    requires
        refs_read(paths, ifds, results),
        0 <= m <= results.len(),
        0 <= k < merged_rows(results.take(m)).len(),
    ensures
        0 <= fd.0 < m,
        0 <= fd.1 < ifds[fd.0].len(),
        merged_rows(results.take(m))[k].path == paths[fd.0],
        merged_rows(results.take(m))[k].ifd == fd.1 as i32,
    decreases m,
{
    if m == 0 {
        assert(results.take(0) =~= Seq::<Result<RefColumns, String>>::empty());
        assert(false);
    }
    lemma_merged_refs_step(results, m);
    let front = merged_rows(results.take(m - 1));
    assert(results[m - 1] matches Ok(c) && c.rows() == file_refs(paths[m - 1], ifds[m - 1]));
    if k < front.len() {
        lemma_ref_origin(paths, ifds, results, m - 1, k)
    } else {
        let d = lemma_refs_name_a_directory(paths[m - 1], ifds[m - 1], k - front.len());
        (m - 1, d)
    }
}

/// Summary row `j` of the first `m` files is that of some directory `d` of
/// some file `f` before `m`; `(f, d)` is returned.
proof fn lemma_info_origin(
    paths: Seq<Seq<char>>,
    ifds: Seq<Seq<IfdMeta>>,
    results: Seq<Result<IfdInfoColumns, String>>,
    m: int,
    j: int,
) -> (fd: (int, int))
    requires
        info_read(paths, ifds, results),
        0 <= m <= results.len(),
        0 <= j < merged_info_rows(results.take(m)).len(),
    ensures
        0 <= fd.0 < m,
        0 <= fd.1 < ifds[fd.0].len(),
        merged_info_rows(results.take(m))[j] == ifd_info_row(paths[fd.0], fd.1, &ifds[fd.0][fd.1]),
    decreases m,
{
    if m == 0 {
        assert(results.take(0) =~= Seq::<Result<IfdInfoColumns, String>>::empty());
        assert(false);
    }
    lemma_merged_info_step(results, m);
    let front = merged_info_rows(results.take(m - 1));
    assert(results[m - 1] matches Ok(c) && c.rows() == file_ifd_info(paths[m - 1], ifds[m - 1]));
    if j < front.len() {
        lemma_info_origin(paths, ifds, results, m - 1, j)
    } else {
        (m - 1, j - front.len())
    }
}

/// The summary row of directory `d` of file `f` stands in the summary of
/// the first `m` files (`f < m`) after the rows of the files before `f`.
proof fn lemma_info_position(
    paths: Seq<Seq<char>>,
    ifds: Seq<Seq<IfdMeta>>,
    results: Seq<Result<IfdInfoColumns, String>>,
    f: int,
    d: int,
    m: int,
)
    requires
        info_read(paths, ifds, results),
        0 <= f < m <= results.len(),
        0 <= d < ifds[f].len(),
    ensures
        merged_info_rows(results.take(f)).len() + d < merged_info_rows(results.take(m)).len(),
        merged_info_rows(results.take(m))[merged_info_rows(results.take(f)).len() + d]
            == ifd_info_row(paths[f], d, &ifds[f][d]),
    decreases m,
{
    lemma_merged_info_step(results, m);
    assert(results[m - 1] matches Ok(c) && c.rows() == file_ifd_info(paths[m - 1], ifds[m - 1]));
    if m - 1 > f {
        lemma_info_position(paths, ifds, results, f, d, m - 1);
    }
}

/// The reference rows of the first `m` files that name file `f` and its
/// directory `d` are those of that directory (none when `f` is not among
/// them).
proof fn lemma_refs_at_dir_prefix(
    paths: Seq<Seq<char>>,
    ifds: Seq<Seq<IfdMeta>>,
    results: Seq<Result<RefColumns, String>>,
    f: int,
    d: int,
    m: int,
)
    requires
        refs_read(paths, ifds, results),
        distinct_paths(paths),
        0 <= f < results.len(),
        0 <= d < ifds[f].len(),
        ifds[f].len() <= i32::MAX + 1,
        0 <= m <= results.len(),
    ensures
        merged_rows(results.take(m)).filter(at_dir(paths[f], d)) == if f < m {
            ifd_refs(paths[f], d, &ifds[f][d])
        } else {
            Seq::<RefRow>::empty()
        },
    decreases m,
{
    reveal(Seq::filter);
    if m == 0 {
        assert(results.take(0) =~= Seq::<Result<RefColumns, String>>::empty());
        return;
    }
    lemma_refs_at_dir_prefix(paths, ifds, results, f, d, m - 1);
    lemma_merged_refs_step(results, m);
    assert(results[m - 1] matches Ok(c) && c.rows() == file_refs(paths[m - 1], ifds[m - 1]));
    let front = merged_rows(results.take(m - 1));
    let tail = file_refs(paths[m - 1], ifds[m - 1]);
    Seq::filter_distributes_over_add(front, tail, at_dir(paths[f], d));
    if m - 1 == f {
        lemma_refs_of_ifd(paths[f], ifds[f], d);
        assert(Seq::<RefRow>::empty() + ifd_refs(paths[f], d, &ifds[f][d]) =~= ifd_refs(
            paths[f],
            d,
            &ifds[f][d],
        ));
    } else {
        assert(paths[m - 1] != paths[f]);
        assert forall|k: int| 0 <= k < tail.len() implies !at_dir(paths[f], d)(#[trigger] tail[k]) by {
            lemma_refs_name_a_directory(paths[m - 1], ifds[m - 1], k);
        }
        lemma_filter_keeps_none(tail, at_dir(paths[f], d));
        assert(front.filter(at_dir(paths[f], d)) + Seq::<RefRow>::empty() =~= front.filter(
            at_dir(paths[f], d),
        ));
    }
}

/// The reference table and the directory summary of the same files agree:
/// for every reference row `x` there is a summary row with `x`'s path and
/// directory, and every such summary row is tiled, has a grid of as many
/// tiles as the reference table has rows with `x`'s path and directory,
/// holds `x`'s tile in that grid, and carries `x`'s metadata.
pub proof fn lemma_tables_agree(
    paths: Seq<Seq<char>>,
    ifds: Seq<Seq<IfdMeta>>,
    ref_results: Seq<Result<RefColumns, String>>,
    info_results: Seq<Result<IfdInfoColumns, String>>,
    k: int,
)
    requires
        refs_read(paths, ifds, ref_results),
        info_read(paths, ifds, info_results),
        distinct_paths(paths),
        grids_fit_r(ifds),
        0 <= k < merged_rows(ref_results).len(),
    ensures
        ({
            let refs = merged_rows(ref_results);
            let info = merged_info_rows(info_results);
            let x = refs[k];
            &&& exists|j: int| 0 <= j < info.len() && #[trigger] info[j].path == x.path && info[j].ifd == x.ifd
            &&& forall|j: int|
                0 <= j < info.len() && #[trigger] info[j].path == x.path && info[j].ifd == x.ifd ==> {
                    &&& info[j].is_tiled
                    &&& info[j].n_tiles_x * info[j].n_tiles_y == refs.filter(
                        at_dir(x.path, x.ifd as int),
                    ).len()
                    &&& 0 <= x.tile_col < info[j].n_tiles_x
                    &&& 0 <= x.tile_row < info[j].n_tiles_y
                    &&& same_metadata(info[j], x)
                }
        }),
{
    let n = ref_results.len() as int;
    assert(ref_results.take(n) =~= ref_results);
    assert(info_results.take(n) =~= info_results);
    let refs = merged_rows(ref_results);
    let info = merged_info_rows(info_results);
    let x = refs[k];
    let (f, d) = lemma_ref_origin(paths, ifds, ref_results, n, k);
    let ifd = ifds[f][d];
    assert(ifds[f].len() <= i32::MAX + 1);
    assert(x.ifd as int == d);
    lemma_refs_at_dir_prefix(paths, ifds, ref_results, f, d, n);
    let own = ifd_refs(paths[f], d, &ifd);
    assert(refs.filter(at_dir(x.path, x.ifd as int)) == own);
    refs.lemma_filter_contains(at_dir(paths[f], d), k);
    let m = choose|m: int| 0 <= m < own.len() && own[m] == x;
    assert(tile_size(&ifd) is Some && ifd.tile_offsets is Some && ifd.tile_byte_counts is Some);
    assert(tiled_grid_fits_r(&ifd));
    lemma_summary_matches_refs(paths[f], d, &ifd);
    let row = ifd_info_row(paths[f], d, &ifd);
    lemma_info_position(paths, ifds, info_results, f, d, n);
    let j0 = merged_info_rows(info_results.take(f)).len() + d;
    assert(info[j0] == row);
    assert(0 <= j0 < info.len() && info[j0].path == x.path && info[j0].ifd == x.ifd);
    assert forall|j: int|
        0 <= j < info.len() && #[trigger] info[j].path == x.path && info[j].ifd == x.ifd implies {
            &&& info[j].is_tiled
            &&& info[j].n_tiles_x * info[j].n_tiles_y == refs.filter(at_dir(x.path, x.ifd as int)).len()
            &&& 0 <= x.tile_col < info[j].n_tiles_x
            &&& 0 <= x.tile_row < info[j].n_tiles_y
            &&& same_metadata(info[j], x)
        } by {
        let (g, e) = lemma_info_origin(paths, ifds, info_results, n, j);
        assert(info[j] == ifd_info_row(paths[g], e, &ifds[g][e]));
        if g != f {
            assert(paths[g] != paths[f]);
        }
        assert(ifds[g].len() <= i32::MAX + 1);
        assert(e == d);
        assert(own[m] == x);
    }
}

} // verus!

verus! {

/// Every directory of a file has exactly one summary row, in directory
/// order, and that row carries the directory's own values: whether it is
/// tiled (a positive tile width), its image size, its tags (compression,
/// bits and samples per pixel, photometric interpretation, predictor,
/// planar configuration, nodata) and CRS, the dtype of its first band, its
/// pixel size (`ModelPixelScale` elements 0 and 1) and origin
/// (`ModelTiepoint` elements 3 and 4).  With both tile sizes present the
/// row carries them, and with both positive its grid is the number of
/// tiles needed to cover the image each way (when that fits in an R
/// integer); otherwise tile sizes and grid are 0.
pub proof fn lemma_summary_rows_describe_their_directory(url: Seq<char>, ifds: Seq<IfdMeta>, d: int)
    requires
        0 <= d < ifds.len(),
    ensures
        ({
            let rows = file_ifd_info(url, ifds);
            let row = rows[d];
            let ifd = ifds[d];
            let sf = ifd.sample_format@;
            let bps = ifd.bits_per_sample@;
            let kind = if sf.len() > 0 { sf[0] } else { crate::dtype::SampleKind::Uint };
            let bits: u16 = if bps.len() > 0 { bps[0] } else { 8 };
            &&& rows.len() == ifds.len()
            &&& row.path == url
            &&& row.ifd == d as i32
            &&& row.is_tiled == (ifd.tile_width matches Some(w) && w > 0)
            &&& row.image_w == ifd.image_width as i32
            &&& row.image_h == ifd.image_height as i32
            &&& row.dtype == dtype_text(kind, bits)
            &&& row.compression == ifd.compression@
            &&& row.bits_per_sample == bits as i32
            &&& row.samples_per_pixel == ifd.samples_per_pixel as i32
            &&& row.photometric == ifd.photometric@
            &&& row.predictor == opt_string(ifd.predictor)
            &&& row.planar_configuration == ifd.planar_configuration@
            &&& (ifd.projected_type matches Some(c) ==> row.crs_epsg == c as i32)
            &&& (ifd.projected_type is None ==> (ifd.geographic_type matches Some(c) ==> row.crs_epsg
                == c as i32))
            &&& (ifd.projected_type is None && ifd.geographic_type is None ==> row.crs_epsg == i32::MIN)
            &&& row.gdal_nodata == opt_string(ifd.gdal_nodata)
            &&& row.scale_x == opt_elem(ifd.model_pixel_scale, 0)
            &&& row.scale_y == opt_elem(ifd.model_pixel_scale, 1)
            &&& row.origin_x == opt_elem(ifd.model_tiepoint, 3)
            &&& row.origin_y == opt_elem(ifd.model_tiepoint, 4)
            &&& (ifd.tile_width is None || ifd.tile_height is None) ==> (row.tile_w == 0 && row.tile_h
                == 0 && row.n_tiles_x == 0 && row.n_tiles_y == 0)
            &&& (ifd.tile_width is Some && ifd.tile_height is Some) ==> {
                let w = ifd.tile_width.unwrap();
                let h = ifd.tile_height.unwrap();
                &&& row.tile_w == w as i32
                &&& row.tile_h == h as i32
                &&& (w > 0 && ifd.image_width + w - 1 <= i32::MAX * w) ==> {
                    &&& row.n_tiles_x >= 0
                    &&& row.n_tiles_x * w >= ifd.image_width
                    &&& (row.n_tiles_x - 1) * w < ifd.image_width || row.n_tiles_x == 0
                }
                &&& (h > 0 && ifd.image_height + h - 1 <= i32::MAX * h) ==> {
                    &&& row.n_tiles_y >= 0
                    &&& row.n_tiles_y * h >= ifd.image_height
                    &&& (row.n_tiles_y - 1) * h < ifd.image_height || row.n_tiles_y == 0
                }
            }
        }),
{
    let ifd = ifds[d];
    let row = file_ifd_info(url, ifds)[d];
    assert(row == ifd_info_row(url, d, &ifd));
    if ifd.tile_width is Some && ifd.tile_height is Some {
        let w = ifd.tile_width.unwrap();
        let h = ifd.tile_height.unwrap();
        lemma_ceiling_grid(ifd.image_width, w);
        lemma_ceiling_grid(ifd.image_height, h);
    }
}

/// The number of tiles needed to cover an extent, when it fits in an R
/// integer, covers the extent and one tile fewer does not.
proof fn lemma_ceiling_grid(extent: u32, size: u32)
    ensures
        (size > 0 && extent + size - 1 <= i32::MAX * size) ==> {
            let n = (crate::ifd::reader_tiles(extent, size) as i32) as int;
            &&& n >= 0
            &&& n * size >= extent
            &&& (n - 1) * size < extent || n == 0
        },
{
    if size > 0 && extent + size - 1 <= i32::MAX * size {
        let q = (extent + size - 1) / (size as int);
        assert(0 <= q <= i32::MAX) by (nonlinear_arith)
            requires
                size > 0,
                extent >= 0,
                q == (extent + size - 1) / (size as int),
                extent + size - 1 <= i32::MAX * size,
        ;
        assert(q * size >= extent && ((q - 1) * size < extent || q == 0)) by (nonlinear_arith)
            requires
                size > 0,
                extent >= 0,
                q == (extent + size - 1) / (size as int),
        ;
    }
}

} // verus!

verus! {

/// Merging per-file summaries file by file: the rows of two runs of
/// results are those of the first followed by those of the second; a file
/// that was summarised gives its summary's rows, one that failed gives none.
pub proof fn lemma_merged_info_rows_concat(
    a: Seq<Result<IfdInfoColumns, String>>,
    b: Seq<Result<IfdInfoColumns, String>>,
)
    ensures
        merged_info_rows(a + b) == merged_info_rows(a) + merged_info_rows(b),
        forall|c: IfdInfoColumns| merged_info_rows(seq![Ok::<IfdInfoColumns, String>(c)]) == #[trigger] c.rows(),
        forall|m: String| #[trigger] merged_info_rows(seq![Err::<IfdInfoColumns, String>(m)]) == Seq::<IfdInfoRow>::empty(),
    decreases b.len(),
{
    assert forall|c: IfdInfoColumns| merged_info_rows(seq![Ok::<IfdInfoColumns, String>(c)]) == #[trigger] c.rows() by {
        let s = seq![Ok::<IfdInfoColumns, String>(c)];
        assert(s.drop_last() =~= Seq::<Result<IfdInfoColumns, String>>::empty());
        assert(s.len() == 1 && s.last() == Ok::<IfdInfoColumns, String>(c));
        assert(merged_info_rows(s.drop_last()) == Seq::<IfdInfoRow>::empty());
        assert(Seq::<IfdInfoRow>::empty() + c.rows() =~= c.rows());
    }
    assert forall|m: String| #[trigger] merged_info_rows(seq![Err::<IfdInfoColumns, String>(m)]) == Seq::<
        IfdInfoRow,
    >::empty() by {
        let s = seq![Err::<IfdInfoColumns, String>(m)];
        assert(s.drop_last() =~= Seq::<Result<IfdInfoColumns, String>>::empty());
        assert(s.len() == 1 && s.last() == Err::<IfdInfoColumns, String>(m));
        assert(merged_info_rows(s.drop_last()) == Seq::<IfdInfoRow>::empty());
    }
    if b.len() == 0 {
        assert(a + b =~= a);
        assert(merged_info_rows(a) + Seq::<IfdInfoRow>::empty() =~= merged_info_rows(a));
    } else {
        lemma_merged_info_rows_concat(a, b.drop_last());
        assert((a + b).drop_last() =~= a + b.drop_last());
        assert((a + b).last() == b.last());
        let tail = match b.last() {
            Ok(c) => c.rows(),
            Err(_) => Seq::<IfdInfoRow>::empty(),
        };
        assert(merged_info_rows(a) + merged_info_rows(b.drop_last()) + tail =~= merged_info_rows(a) + (merged_info_rows(
            b.drop_last(),
        ) + tail));
    }
}

} // verus!
