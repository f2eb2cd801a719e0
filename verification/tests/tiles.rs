use rustycogs::tiles::{
    clamp_concurrency, group_positions, group_tile_requests, pair_group_tiles, scatter_by_row,
    tile_positions, TileRequestError,
};

#[test]
fn concurrency_is_at_least_one() {
    assert_eq!(clamp_concurrency(-3), 1);
    assert_eq!(clamp_concurrency(0), 1);
    assert_eq!(clamp_concurrency(1), 1);
    assert_eq!(clamp_concurrency(16), 16);
}

#[test]
fn positions_pair_columns_with_rows() {
    assert_eq!(tile_positions(&[0, 1, 2], &[5, 6, 7]), Ok(vec![(0, 5), (1, 6), (2, 7)]));
    assert_eq!(tile_positions(&[-1], &[0]), Ok(vec![(usize::MAX, 0)]));
}

#[test]
fn positions_need_equal_lengths() {
    let e = tile_positions(&[0, 1], &[0]).unwrap_err();
    assert_eq!(e, TileRequestError::ColsRowsLengthMismatch);
    assert_eq!(e.message(), "cols and rows must have the same length");
}

fn strings(v: &[&str]) -> Vec<String> {
    v.iter().map(|s| s.to_string()).collect()
}

#[test]
fn requests_are_grouped_by_file_then_directory() {
    let paths = strings(&["a.tif", "b.tif", "a.tif", "a.tif", "b.tif"]);
    let files = group_tile_requests(&paths, &[0, 0, 1, 0, 0], &[1, 2, 3, 4, 5], &[6, 7, 8, 9, 10])
        .unwrap();
    assert_eq!(files.len(), 2);
    assert_eq!(files[0].path, "a.tif");
    assert_eq!(files[0].dirs.len(), 2);
    assert_eq!(files[0].dirs[0].ifd, 0);
    assert_eq!(files[0].dirs[0].specs, vec![(0, 1, 6), (3, 4, 9)]);
    assert_eq!(files[0].dirs[1].ifd, 1);
    assert_eq!(files[0].dirs[1].specs, vec![(2, 3, 8)]);
    assert_eq!(files[1].path, "b.tif");
    assert_eq!(files[1].dirs.len(), 1);
    assert_eq!(files[1].dirs[0].ifd, 0);
    assert_eq!(files[1].dirs[0].specs, vec![(1, 2, 7), (4, 5, 10)]);
    assert_eq!(group_positions(&files[0].dirs[0].specs), vec![(1, 6), (4, 9)]);
}

#[test]
fn one_file_in_two_directories_is_one_file_request() {
    let paths = strings(&["a.tif", "a.tif"]);
    let files = group_tile_requests(&paths, &[0, 1], &[0, 0], &[0, 0]).unwrap();
    assert_eq!(files.len(), 1);
    assert_eq!(files[0].dirs.len(), 2);
    assert_eq!(files[0].dirs[0].specs, vec![(0, 0, 0)]);
    assert_eq!(files[0].dirs[1].specs, vec![(1, 0, 0)]);
}

#[test]
fn repeated_tiles_are_all_requested() {
    let paths = strings(&["a.tif", "a.tif"]);
    let files = group_tile_requests(&paths, &[0, 0], &[3, 3], &[4, 4]).unwrap();
    assert_eq!(files[0].dirs[0].specs, vec![(0, 3, 4), (1, 3, 4)]);
}

#[test]
fn negative_directory_wraps_to_an_index() {
    let paths = strings(&["a.tif"]);
    let files = group_tile_requests(&paths, &[-1], &[0], &[0]).unwrap();
    assert_eq!(files[0].dirs[0].ifd, usize::MAX);
}

#[test]
fn grouping_needs_equal_lengths() {
    let paths = strings(&["a.tif", "b.tif"]);
    let e = group_tile_requests(&paths, &[0, 0], &[1], &[1, 2]).err().unwrap();
    assert_eq!(e, TileRequestError::RequestLengthMismatch);
    assert!(group_tile_requests(&paths, &[0], &[1, 2], &[1, 2]).is_err());
    assert!(group_tile_requests(&paths, &[0, 0], &[1, 2], &[1, 2, 3]).is_err());
    assert_eq!(e.message(), "paths, ifd_indices, cols, rows must all have the same length");
    assert!(group_tile_requests(&Vec::new(), &[], &[], &[]).unwrap().is_empty());
}

#[test]
fn pairing_stops_at_first_decode_error() {
    let specs = vec![(4, 0, 0), (7, 1, 0), (9, 2, 0)];
    let decoded: Vec<Result<&str, &str>> = vec![Ok("t4"), Err("bad 7"), Err("bad 9")];
    assert_eq!(pair_group_tiles(&specs, decoded), Err("bad 7"));
    let decoded: Vec<Result<&str, &str>> = vec![Ok("t4"), Ok("t7"), Ok("t9")];
    assert_eq!(pair_group_tiles(&specs, decoded), Ok(vec![(4, "t4"), (7, "t7"), (9, "t9")]));
}

#[test]
fn pairing_stops_at_the_shorter_list() {
    let specs = vec![(4, 0, 0), (7, 1, 0)];
    let decoded: Vec<Result<&str, &str>> = vec![Ok("t4"), Ok("t7"), Err("extra")];
    assert_eq!(pair_group_tiles(&specs, decoded), Ok(vec![(4, "t4"), (7, "t7")]));
    let decoded: Vec<Result<&str, &str>> = vec![Ok("t4")];
    assert_eq!(pair_group_tiles(&specs, decoded), Ok(vec![(4, "t4")]));
}

#[test]
fn scatter_restores_request_order() {
    let results: Vec<Result<Vec<(usize, &str)>, &str>> = vec![
        Ok(vec![(2, "c"), (0, "a")]),
        Err("file b.tif failed"),
        Ok(vec![(3, "d")]),
    ];
    let (out, errs) = scatter_by_row(5, results);
    assert_eq!(out, vec![Some("a"), None, Some("c"), Some("d"), None]);
    assert_eq!(errs, vec!["file b.tif failed"]);
}

#[test]
fn scatter_keeps_the_last_tile_for_a_row() {
    let results: Vec<Result<Vec<(usize, &str)>, &str>> = vec![Ok(vec![(1, "x")]), Ok(vec![(1, "y")])];
    let (out, errs) = scatter_by_row(2, results);
    assert_eq!(out, vec![None, Some("y")]);
    assert!(errs.is_empty());
}

#[test]
fn rows_keep_their_tiles_whatever_order_groups_finish() {
    let paths = strings(&["b.tif", "a.tif", "b.tif", "a.tif"]);
    let files = group_tile_requests(&paths, &[0, 0, 0, 0], &[0, 1, 2, 3], &[0, 0, 0, 0]).unwrap();
    // Decode every directory, naming each tile by its file and position.
    let mut results = Vec::new();
    for f in files.iter().rev() {
        for d in f.dirs.iter() {
            let decoded: Vec<Result<String, String>> = group_positions(&d.specs)
                .iter()
                .map(|(c, r)| Ok(format!("{}:{}:{}", f.path, c, r)))
                .collect();
            results.push(pair_group_tiles(&d.specs, decoded));
        }
    }
    let (out, errs) = scatter_by_row(4, results);
    assert!(errs.is_empty());
    assert_eq!(
        out,
        vec![
            Some("b.tif:0:0".to_string()),
            Some("a.tif:1:0".to_string()),
            Some("b.tif:2:0".to_string()),
            Some("a.tif:3:0".to_string()),
        ]
    );
}

#[test]
fn a_failed_directory_leaves_other_rows_alone() {
    let paths = strings(&["a.tif", "a.tif", "b.tif"]);
    let files = group_tile_requests(&paths, &[0, 1, 0], &[5, 6, 7], &[0, 0, 0]).unwrap();
    let mut results = Vec::new();
    for f in files.iter() {
        for d in f.dirs.iter() {
            let decoded: Vec<Result<String, String>> = if d.ifd == 1 {
                vec![Err(format!("IFD index {} out of range in {}", d.ifd, f.path))]
            } else {
                group_positions(&d.specs)
                    .iter()
                    .map(|(c, _)| Ok(format!("{}#{}", f.path, c)))
                    .collect()
            };
            results.push(pair_group_tiles(&d.specs, decoded));
        }
    }
    let (out, errs) = scatter_by_row(3, results);
    assert_eq!(out, vec![Some("a.tif#5".to_string()), None, Some("b.tif#7".to_string())]);
    assert_eq!(errs, vec!["IFD index 1 out of range in a.tif".to_string()]);
}

fn read_all(paths: &[String], ifds: &[i32], cols: &[i32], rows: &[i32], reverse: bool) -> Vec<Option<String>> {
    let files = group_tile_requests(&paths.to_vec(), ifds, cols, rows).unwrap();
    let mut results = Vec::new();
    let order: Vec<usize> = if reverse { (0..files.len()).rev().collect() } else { (0..files.len()).collect() };
    for f in order {
        let file = &files[f];
        for d in file.dirs.iter() {
            let decoded: Vec<Result<String, String>> = group_positions(&d.specs)
                .iter()
                .map(|(c, r)| Ok(format!("{}/{}:{}:{}", file.path, d.ifd, c, r)))
                .collect();
            results.push(pair_group_tiles(&d.specs, decoded));
        }
    }
    scatter_by_row(paths.len(), results).0
}

#[test]
fn permuting_the_request_permutes_the_answer() {
    let paths = strings(&["a.tif", "b.tif", "a.tif", "c.tif"]);
    let ifds = [0, 0, 1, 0];
    let cols = [1, 2, 3, 4];
    let rows = [5, 6, 7, 8];
    let pi = [2usize, 0, 3, 1];
    let paths2: Vec<String> = pi.iter().map(|&k| paths[k].clone()).collect();
    let ifds2: Vec<i32> = pi.iter().map(|&k| ifds[k]).collect();
    let cols2: Vec<i32> = pi.iter().map(|&k| cols[k]).collect();
    let rows2: Vec<i32> = pi.iter().map(|&k| rows[k]).collect();
    let out1 = read_all(&paths, &ifds, &cols, &rows, false);
    let out2 = read_all(&paths2, &ifds2, &cols2, &rows2, true);
    for j in 0..pi.len() {
        assert_eq!(out2[j], out1[pi[j]]);
    }
    assert_eq!(out1[2], Some("a.tif/1:3:7".to_string()));
}
