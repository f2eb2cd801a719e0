use rustycogs::dtype::SampleKind;
use rustycogs::ifd::{epsg_code, fits_scan, tile_grid, IfdMeta, NO_EPSG};
use rustycogs::ifd_info::{ifd_info_from_ifds, merge_info_results, IfdInfoColumns};
use rustycogs::refs::{crs_epsg_for_r, merge_ref_results, refs_from_ifds, RefColumns};

fn tiled(w: u32, h: u32, tw: u32, th: u32, n_offsets: usize) -> IfdMeta {
    IfdMeta {
        image_width: w,
        image_height: h,
        tile_width: Some(tw),
        tile_height: Some(th),
        tile_offsets: Some((0..n_offsets as u64).map(|k| 1000 + 10 * k).collect()),
        tile_byte_counts: Some((0..n_offsets as u64).map(|k| 5 + k).collect()),
        sample_format: vec![SampleKind::Float],
        bits_per_sample: vec![32],
        samples_per_pixel: 1,
        compression: "Deflate".to_string(),
        photometric: "BlackIsZero".to_string(),
        predictor: Some("FloatingPoint".to_string()),
        planar_configuration: "Chunky".to_string(),
        projected_type: Some(3857),
        geographic_type: Some(4326),
        gdal_nodata: Some("-32767".to_string()),
        model_pixel_scale: Some(vec![2.5f64.to_bits(), 2.5f64.to_bits(), 0]),
        model_tiepoint: Some(vec![0, 0, 0, 100.0f64.to_bits(), (-40.0f64).to_bits(), 0]),
    }
}

fn strip(w: u32, h: u32) -> IfdMeta {
    let mut m = tiled(w, h, 1, 1, 0);
    m.tile_width = None;
    m.tile_height = None;
    m.tile_offsets = None;
    m.tile_byte_counts = None;
    m.predictor = None;
    m.projected_type = None;
    m.geographic_type = None;
    m.gdal_nodata = None;
    m.model_pixel_scale = None;
    m.model_tiepoint = None;
    m
}

#[test]
fn tiles_are_listed_in_row_major_order() {
    let ifds = vec![tiled(100, 50, 32, 32, 8)];
    let (cols, strips) = refs_from_ifds("s3://b/k.tif", &ifds);
    assert!(strips.is_empty());
    assert_eq!(cols.len(), 8);
    assert_eq!(cols.tile_col, vec![0, 1, 2, 3, 0, 1, 2, 3]);
    assert_eq!(cols.tile_row, vec![0, 0, 0, 0, 1, 1, 1, 1]);
    assert_eq!(cols.offset, vec![1000, 1010, 1020, 1030, 1040, 1050, 1060, 1070]);
    assert_eq!(cols.length, vec![5, 6, 7, 8, 9, 10, 11, 12]);
    assert!(cols.path.iter().all(|p| p == "s3://b/k.tif"));
    assert!(cols.ifd.iter().all(|&i| i == 0));
    assert!(cols.dtype.iter().all(|d| d == "<f4"));
    assert!(cols.crs_epsg.iter().all(|&e| e == 3857));
    assert_eq!(cols.image_w[0], 100);
    assert_eq!(cols.tile_h[7], 32);
    assert_eq!(cols.gdal_nodata[3].as_deref(), Some("-32767"));
    assert_eq!(cols.scale_x[0].map(f64::from_bits), Some(2.5));
    assert_eq!(cols.scale_y[0].map(f64::from_bits), Some(2.5));
    assert_eq!(cols.origin_x[0].map(f64::from_bits), Some(100.0));
    assert_eq!(cols.origin_y[0].map(f64::from_bits), Some(-40.0));
}

#[test]
fn missing_offsets_read_as_zero() {
    let ifds = vec![tiled(64, 64, 32, 32, 2)];
    let (cols, _) = refs_from_ifds("a.tif", &ifds);
    assert_eq!(cols.offset, vec![1000, 1010, 0, 0]);
    assert_eq!(cols.length, vec![5, 6, 0, 0]);
}

#[test]
fn strip_based_directories_are_skipped_and_reported() {
    let mut no_height = tiled(64, 64, 32, 32, 4);
    no_height.tile_height = None;
    let mut no_offsets = tiled(64, 64, 32, 32, 4);
    no_offsets.tile_offsets = None;
    let mut zero_width = tiled(64, 64, 32, 32, 4);
    zero_width.tile_width = Some(0);
    let ifds = vec![strip(10, 10), tiled(64, 32, 32, 32, 2), no_height, no_offsets, zero_width];
    let (cols, strips) = refs_from_ifds("a.tif", &ifds);
    assert_eq!(strips, vec![0, 4]);
    assert_eq!(cols.len(), 2);
    assert_eq!(cols.ifd, vec![1, 1]);
}

#[test]
fn epsg_prefers_projected_crs() {
    let mut m = tiled(1, 1, 1, 1, 1);
    assert_eq!(epsg_code(&m), 3857);
    m.projected_type = None;
    assert_eq!(epsg_code(&m), 4326);
    m.geographic_type = None;
    assert_eq!(epsg_code(&m), NO_EPSG);
}

#[test]
fn epsg_for_r_marks_missing_codes() {
    assert_eq!(crs_epsg_for_r(&vec![4326, NO_EPSG, 3857]), vec![Some(4326), None, Some(3857)]);
}

#[test]
fn scan_fit_limits() {
    assert!(fits_scan(&tiled(100, 50, 32, 32, 8)));
    assert!(fits_scan(&strip(u32::MAX, u32::MAX)));
    let wide = tiled(u32::MAX, 1, 1, 1, 0);
    assert!(!fits_scan(&wide));
    let mut many = tiled(u32::MAX - 1, 3, 1, 1, 0);
    assert!(!fits_scan(&many));
    many.tile_offsets = None;
    assert!(fits_scan(&many));
    let mut deep = tiled(1, 1, 1, 1, 1);
    deep.bits_per_sample = vec![65529];
    assert!(!fits_scan(&deep));
}

#[test]
fn merging_keeps_order_and_collects_failures() {
    let (a, _) = refs_from_ifds("a.tif", &[tiled(64, 32, 32, 32, 2)]);
    let (b, _) = refs_from_ifds("b.tif", &[tiled(32, 32, 32, 32, 1)]);
    let (merged, errs) = merge_ref_results(vec![
        Ok(a),
        Err("Failed to open TIFF c.tif".to_string()),
        Ok(b),
        Err("Failed to read IFDs from d.tif".to_string()),
    ]);
    assert_eq!(merged.path, vec!["a.tif", "a.tif", "b.tif"]);
    assert_eq!(merged.tile_col, vec![0, 1, 0]);
    assert_eq!(errs, vec!["Failed to open TIFF c.tif", "Failed to read IFDs from d.tif"]);
}

#[test]
fn extend_appends_rows() {
    let mut t = RefColumns::new();
    assert_eq!(t.len(), 0);
    let (a, _) = refs_from_ifds("a.tif", &[tiled(64, 32, 32, 32, 2)]);
    t.extend(a);
    assert_eq!(t.len(), 2);
    assert_eq!(t.scale_x.len(), 2);
}

#[test]
fn directory_summary_has_one_row_per_directory() {
    let ifds = vec![strip(300, 200), tiled(100, 50, 32, 32, 8)];
    let info = ifd_info_from_ifds("x.tif", &ifds);
    assert_eq!(info.len(), 2);
    assert_eq!(info.ifd, vec![0, 1]);
    assert_eq!(info.is_tiled, vec![false, true]);
    assert_eq!(info.n_tiles_x, vec![0, 4]);
    assert_eq!(info.n_tiles_y, vec![0, 2]);
    assert_eq!(info.tile_w, vec![0, 32]);
    assert_eq!(info.image_w, vec![300, 100]);
    assert_eq!(info.predictor, vec![None, Some("FloatingPoint".to_string())]);
    assert_eq!(info.photometric[1], "BlackIsZero");
    assert_eq!(info.crs_epsg, vec![NO_EPSG, 3857]);
    assert_eq!(info.dtype, vec!["<f4", "<f4"]);
    assert_eq!(info.bits_per_sample, vec![32, 32]);
}

#[test]
fn summary_merge() {
    let a = ifd_info_from_ifds("a.tif", &[strip(1, 1)]);
    let b = ifd_info_from_ifds("b.tif", &[strip(1, 1), strip(2, 2)]);
    let (m, errs) = merge_info_results(vec![Err("bad".to_string()), Ok(b), Ok(a)]);
    assert_eq!(m.path, vec!["b.tif", "b.tif", "a.tif"]);
    assert_eq!(errs, vec!["bad"]);
    let empty = IfdInfoColumns::new();
    assert_eq!(empty.len(), 0);
}

#[test]
fn summary_grid_matches_reference_rows() {
    let ifds = vec![tiled(100, 50, 32, 32, 8), strip(10, 10), tiled(64, 64, 32, 32, 4)];
    let (refs, _) = refs_from_ifds("f.tif", &ifds);
    let info = ifd_info_from_ifds("f.tif", &ifds);
    for d in [0usize, 2] {
        let rows: Vec<usize> = (0..refs.len()).filter(|&k| refs.ifd[k] == d as i32).collect();
        assert_eq!((info.n_tiles_x[d] * info.n_tiles_y[d]) as usize, rows.len());
        for k in rows {
            assert!(refs.tile_col[k] < info.n_tiles_x[d] && refs.tile_row[k] < info.n_tiles_y[d]);
            assert_eq!(refs.dtype[k], info.dtype[d]);
            assert_eq!(refs.tile_w[k], info.tile_w[d]);
            assert_eq!(refs.crs_epsg[k], info.crs_epsg[d]);
        }
    }
}

#[test]
fn no_two_reference_rows_name_the_same_tile() {
    let ifds = vec![tiled(100, 50, 32, 32, 8), tiled(64, 64, 32, 32, 4), tiled(100, 50, 32, 32, 8)];
    let (refs, _) = refs_from_ifds("f.tif", &ifds);
    assert_eq!(refs.len(), 20);
    for k1 in 0..refs.len() {
        for k2 in 0..refs.len() {
            let same = refs.ifd[k1] == refs.ifd[k2]
                && refs.tile_col[k1] == refs.tile_col[k2]
                && refs.tile_row[k1] == refs.tile_row[k2];
            assert_eq!(same, k1 == k2);
        }
    }
}

fn float_grid(extent: u32, size: u32) -> usize {
    (extent as f64 / size as f64).ceil() as usize
}

#[test]
fn tile_grid_is_the_readers_rounded_up_quotient() {
    let values = [0u32, 1, 2, 3, 7, 255, 256, 257, 1000, 65535, 65536, 1 << 31, u32::MAX - 1, u32::MAX];
    for &w in &values {
        for &tw in &values {
            let mut m = tiled(1, 1, 1, 1, 0);
            m.image_width = w;
            m.image_height = tw;
            m.tile_width = Some(tw);
            m.tile_height = Some(w);
            assert_eq!(tile_grid(&m), Some((float_grid(w, tw), float_grid(tw, w))), "{} {}", w, tw);
        }
    }
    let mut m = tiled(10, 10, 4, 4, 0);
    assert_eq!(tile_grid(&m), Some((3, 3)));
    m.tile_height = None;
    assert_eq!(tile_grid(&m), None);
}

#[test]
fn summary_of_zero_sized_tiles() {
    let mut m = tiled(10, 0, 0, 0, 0);
    m.tile_offsets = None;
    m.tile_byte_counts = None;
    let info = ifd_info_from_ifds("z.tif", &[m]);
    assert!(!info.is_tiled[0]);
    assert_eq!((info.n_tiles_x[0], info.n_tiles_y[0]), (-1, 0));
}

#[test]
fn reference_table_and_summary_agree_across_files() {
    let files = [
        ("a.tif", vec![tiled(100, 50, 32, 32, 8), strip(5, 5)]),
        ("b.tif", vec![strip(5, 5), tiled(64, 64, 32, 32, 4)]),
    ];
    let mut ref_results = Vec::new();
    let mut info_results = Vec::new();
    for (p, ifds) in files.iter() {
        ref_results.push(Ok(refs_from_ifds(p, ifds).0));
        info_results.push(Ok(ifd_info_from_ifds(p, ifds)));
    }
    let (refs, _) = merge_ref_results(ref_results);
    let (info, _) = merge_info_results(info_results);
    assert_eq!(refs.len(), 12);
    for k in 0..refs.len() {
        let same_dir = |j: usize| info.path[j] == refs.path[k] && info.ifd[j] == refs.ifd[k];
        let js: Vec<usize> = (0..info.len()).filter(|&j| same_dir(j)).collect();
        assert_eq!(js.len(), 1);
        let j = js[0];
        let count = (0..refs.len())
            .filter(|&k2| refs.path[k2] == refs.path[k] && refs.ifd[k2] == refs.ifd[k])
            .count();
        assert!(info.is_tiled[j]);
        assert_eq!((info.n_tiles_x[j] * info.n_tiles_y[j]) as usize, count);
        assert!(refs.tile_col[k] < info.n_tiles_x[j] && refs.tile_row[k] < info.n_tiles_y[j]);
        assert_eq!(refs.dtype[k], info.dtype[j]);
        assert_eq!(refs.image_w[k], info.image_w[j]);
        assert_eq!(refs.tile_h[k], info.tile_h[j]);
        assert_eq!(refs.gdal_nodata[k], info.gdal_nodata[j]);
    }
}
