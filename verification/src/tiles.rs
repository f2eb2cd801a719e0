//! Tile requests: validating and converting the caller's tile positions,
//! grouping a multi-file request by file and, within a file, by directory,
//! and putting the decoded tiles back in the caller's row order.
use vstd::prelude::*;

verus! {

/// Why a tile request was refused before any file was read.
#[derive(Clone, Copy, Debug, PartialEq, Eq, Structural)]
pub enum TileRequestError {
    /// The column and row vectors of a single-file request differ in length.
    ColsRowsLengthMismatch,
    /// The paths, directory indices, columns and rows of a multi-file
    /// request differ in length.
    RequestLengthMismatch,
}

/// The number of files (or file groups) worked on at once: at least one.
pub open spec fn concurrency_limit(concurrency: i32) -> usize {
    if concurrency < 1 { 1 } else { concurrency as usize }
}

/// The number of files (or file groups) worked on at once.
pub fn clamp_concurrency(concurrency: i32) -> (r: usize)
    ensures
        r == concurrency_limit(concurrency),
        r >= 1,
        concurrency >= 1 ==> r as int == concurrency as int,
        concurrency < 1 ==> r == 1,
{
    if concurrency < 1 { 1 } else { concurrency as usize }
}

/// A position or index given as an R integer, as the unsigned index that
/// the reader is asked for (negative values wrap around).
pub open spec fn as_index(v: i32) -> usize {
    v as usize
}

/// The tile positions (column, row) of a single-file request, or
/// [`TileRequestError::ColsRowsLengthMismatch`] when the two vectors differ
/// in length.
pub fn tile_positions(cols: &[i32], rows: &[i32]) -> (r: Result<Vec<(usize, usize)>, TileRequestError>)
    ensures
        r is Ok <==> cols@.len() == rows@.len(),
        r is Err ==> r == Err::<Vec<(usize, usize)>, TileRequestError>(
            TileRequestError::ColsRowsLengthMismatch,
        ),
        r matches Ok(v) ==> v@ == Seq::new(
            cols@.len(),
            |k: int| (as_index(cols@[k]), as_index(rows@[k])),
        ),
{
    if cols.len() != rows.len() {
        return Err(TileRequestError::ColsRowsLengthMismatch);
    }
    let mut v: Vec<(usize, usize)> = Vec::new();
    let mut k: usize = 0;
    while k < cols.len()
        invariant
            cols@.len() == rows@.len(),
            k <= cols@.len(),
            v@ == Seq::new(k as nat, |j: int| (as_index(cols@[j]), as_index(rows@[j]))),
        decreases cols.len() - k,
    {
        v.push((cols[k] as usize, rows[k] as usize));
        assert(v@ =~= Seq::new((k + 1) as nat, |j: int| (as_index(cols@[j]), as_index(rows@[j]))));
        k = k + 1;
    }
    Ok(v)
}

/// The tiles requested from one directory of one file: each is
/// `(row of the request, tile column, tile row)`.
pub struct TileGroup {
    pub path: String,
    pub ifd: usize,
    pub specs: Vec<(usize, usize, usize)>,
}

/// The (file, directory) key of request row `i`.
pub open spec fn row_key(paths: Seq<String>, ifd_indices: Seq<i32>, i: int) -> (Seq<char>, usize) {
    (paths[i]@, as_index(ifd_indices[i]))
}

/// The (file, directory) key of a group.
pub open spec fn group_key(g: TileGroup) -> (Seq<char>, usize) {
    (g.path@, g.ifd)
}

/// A grouping of the `n`-row request (`paths`, `ifd_indices`, `cols`,
/// `rows`):
/// - no two groups share a key, and no group is empty;
/// - every tile of a group belongs to a request row with the group's key,
///   and is that row's (column, row);
/// - within a group the request rows are in increasing order;
/// - every request row is in some group.
pub open spec fn is_grouping(
    groups: Seq<TileGroup>,
    paths: Seq<String>,
    ifd_indices: Seq<i32>,
    cols: Seq<i32>,
    rows: Seq<i32>,
) -> bool {
    let n = paths.len();
    &&& forall|g1: int, g2: int|
        0 <= g1 < groups.len() && 0 <= g2 < groups.len() && g1 != g2
            ==> group_key(#[trigger] groups[g1]) != group_key(#[trigger] groups[g2])
    &&& forall|g: int| 0 <= g < groups.len() ==> (#[trigger] groups[g]).specs@.len() > 0
    &&& forall|g: int, j: int|
        #![trigger groups[g].specs@[j]]
        0 <= g < groups.len() && 0 <= j < groups[g].specs@.len() ==> {
            let (i, c, r) = groups[g].specs@[j];
            &&& i < n
            &&& row_key(paths, ifd_indices, i as int) == group_key(groups[g])
            &&& c == as_index(cols[i as int])
            &&& r == as_index(rows[i as int])
        }
    &&& forall|g: int, j1: int, j2: int|
        #![trigger groups[g].specs@[j1], groups[g].specs@[j2]]
        0 <= g < groups.len() && 0 <= j1 < j2 < groups[g].specs@.len()
            ==> groups[g].specs@[j1].0 < groups[g].specs@[j2].0
    &&& forall|i: int| 0 <= i < n ==> #[trigger] row_in_groups(groups, i)
}

/// Request row `i` is one of the tiles of some group.
pub open spec fn row_in_groups(groups: Seq<TileGroup>, i: int) -> bool {
    exists|g: int, j: int|
        0 <= g < groups.len() && 0 <= j < groups[g].specs@.len()
            && (#[trigger] groups[g].specs@[j]).0 == i
}

/// Some row before `upto` is assigned to group `g`.
pub open spec fn group_used(assign: Seq<usize>, upto: int, g: int) -> bool {
    exists|k: int| 0 <= k < upto && #[trigger] assign[k] == g
}

/// Index of the first key equal to (`path`, `ifd`), if any.
fn find_key(keys: &Vec<(String, usize)>, path: &String, ifd: usize) -> (r: Option<usize>)
    ensures
        match r {
            Some(g) => g < keys@.len() && keys@[g as int].0@ == path@ && keys@[g as int].1 == ifd,
            None => forall|g: int|
                0 <= g < keys@.len() ==> !(keys@[g].0@ == path@ && keys@[g].1 == ifd),
        },
{
    let mut g: usize = 0;
    while g < keys.len()
        invariant
            g <= keys@.len(),
            forall|h: int| 0 <= h < g ==> !(keys@[h].0@ == path@ && keys@[h].1 == ifd),
        decreases keys.len() - g,
    {
        if keys[g].1 == ifd && keys[g].0 == *path {
            return Some(g);
        }
        g = g + 1;
    }
    None
}

/// The tiles `specs` are exactly the request rows assigned to group `h`,
/// in increasing row order, each with its (column, row).
pub open spec fn is_group_of(
    specs: Seq<(usize, usize, usize)>,
    h: int,
    assign: Seq<usize>,
    cols: Seq<i32>,
    rows: Seq<i32>,
) -> bool {
    &&& forall|j: int|
        #![trigger specs[j]]
        0 <= j < specs.len() ==> {
            let (i, c, r) = specs[j];
            &&& i < assign.len()
            &&& assign[i as int] == h
            &&& c == as_index(cols[i as int])
            &&& r == as_index(rows[i as int])
        }
    &&& forall|j1: int, j2: int|
        #![trigger specs[j1], specs[j2]]
        0 <= j1 < j2 < specs.len() ==> specs[j1].0 < specs[j2].0
    &&& forall|i: int|
        0 <= i < assign.len() && #[trigger] assign[i] == h ==> exists|j: int|
            0 <= j < specs.len() && (#[trigger] specs[j]).0 == i
}

/// The tiles of the request rows assigned to group `h`.
fn rows_of_group(assign: &Vec<usize>, h: usize, cols: &[i32], rows: &[i32]) -> (r: Vec<(usize, usize, usize)>)
    requires
        assign@.len() == cols@.len(),
        assign@.len() == rows@.len(),
    ensures
        is_group_of(r@, h as int, assign@, cols@, rows@),
{
    let mut r: Vec<(usize, usize, usize)> = Vec::new();
    let mut i: usize = 0;
    while i < assign.len()
        invariant
            assign@.len() == cols@.len(),
            assign@.len() == rows@.len(),
            i <= assign@.len(),
            forall|j: int| 0 <= j < r@.len() ==> (#[trigger] r@[j]).0 < i,
            is_group_of(r@, h as int, assign@.take(i as int), cols@, rows@),
        decreases assign.len() - i,
    {
        let ghost before = r@;
        if assign[i] == h {
            r.push((i, cols[i] as usize, rows[i] as usize));
        }
        proof {
            let a = assign@.take(i + 1);
            assert forall|k: int| 0 <= k < a.len() && #[trigger] a[k] == h implies exists|j: int|
                0 <= j < r@.len() && (#[trigger] r@[j]).0 == k by {
                if k < i {
                    assert(assign@.take(i as int)[k] == h);
                    let j = choose|j: int| 0 <= j < before.len() && (#[trigger] before[j]).0 == k;
                    assert(r@[j] == before[j]);
                } else {
                    assert(r@[before.len() as int].0 == k);
                }
            }
        }
        i = i + 1;
    }
    assert(assign@.take(assign@.len() as int) =~= assign@);
    r
}

/// Groups the rows of a request by (file, directory).
fn group_by_directory(
    paths: &Vec<String>,
    ifd_indices: &[i32],
    cols: &[i32],
    rows: &[i32],
) -> (groups: Vec<TileGroup>)
    requires
        ifd_indices@.len() == paths@.len(),
        cols@.len() == paths@.len(),
        rows@.len() == paths@.len(),
    ensures
        is_grouping(groups@, paths@, ifd_indices@, cols@, rows@),
{
    let n = paths.len();
    // The group of each row, and the groups' keys in order of first
    // appearance.
    let mut keys: Vec<(String, usize)> = Vec::new();
    let mut assign: Vec<usize> = Vec::new();
    let mut i: usize = 0;
    while i < n
        invariant
            n == paths@.len(),
            n == ifd_indices@.len(),
            i <= n,
            assign@.len() == i,
            forall|k: int|
                0 <= k < i ==> (#[trigger] assign@[k]) < keys@.len()
                    && keys@[assign@[k] as int].0@ == paths@[k]@
                    && keys@[assign@[k] as int].1 == as_index(ifd_indices@[k]),
            forall|g1: int, g2: int|
                #![trigger keys@[g1], keys@[g2]]
                0 <= g1 < keys@.len() && 0 <= g2 < keys@.len() && g1 != g2
                    ==> !(keys@[g1].0@ == keys@[g2].0@ && keys@[g1].1 == keys@[g2].1),
            forall|g: int| 0 <= g < keys@.len() ==> #[trigger] group_used(assign@, i as int, g),
        decreases n - i,
    {
        let ifd = ifd_indices[i] as usize;
        let ghost old_assign = assign@;
        let ghost old_keys = keys@;
        match find_key(&keys, &paths[i], ifd) {
            Some(g) => {
                assign.push(g);
            },
            None => {
                let g = keys.len();
                keys.push((paths[i].clone(), ifd));
                assign.push(g);
                assert(keys@[g as int].0@ == paths@[i as int]@);
            },
        }
        proof {
            assert forall|h: int| 0 <= h < keys@.len() implies #[trigger] group_used(
                assign@,
                i + 1,
                h,
            ) by {
                if h < old_keys.len() {
                    assert(group_used(old_assign, i as int, h));
                    let k = choose|k: int| 0 <= k < i && #[trigger] old_assign[k] == h;
                    assert(assign@[k] == h);
                } else {
                    assert(assign@[i as int] == h);
                }
            }
            assert forall|k: int| 0 <= k < i + 1 implies (#[trigger] assign@[k]) < keys@.len()
                && keys@[assign@[k] as int].0@ == paths@[k]@
                && keys@[assign@[k] as int].1 == as_index(ifd_indices@[k]) by {
                if k < i {
                    assert(assign@[k] == old_assign[k]);
                    assert(keys@[old_assign[k] as int] == old_keys[old_assign[k] as int]);
                }
            }
        }
        i = i + 1;
    }
    let mut groups: Vec<TileGroup> = Vec::new();
    let mut g: usize = 0;
    while g < keys.len()
        invariant
            n == paths@.len(),
            n == ifd_indices@.len(),
            n == cols@.len(),
            n == rows@.len(),
            assign@.len() == n,
            g <= keys@.len(),
            groups@.len() == g,
            forall|k: int|
                0 <= k < n ==> (#[trigger] assign@[k]) < keys@.len()
                    && keys@[assign@[k] as int].0@ == paths@[k]@
                    && keys@[assign@[k] as int].1 == as_index(ifd_indices@[k]),
            forall|g1: int, g2: int|
                #![trigger keys@[g1], keys@[g2]]
                0 <= g1 < keys@.len() && 0 <= g2 < keys@.len() && g1 != g2
                    ==> !(keys@[g1].0@ == keys@[g2].0@ && keys@[g1].1 == keys@[g2].1),
            forall|h: int| 0 <= h < keys@.len() ==> #[trigger] group_used(assign@, n as int, h),
            forall|h: int|
                0 <= h < g ==> group_key(#[trigger] groups@[h]) == (keys@[h].0@, keys@[h].1),
            forall|h: int|
                0 <= h < g ==> is_group_of((#[trigger] groups@[h]).specs@, h, assign@, cols@, rows@),
            forall|h: int| 0 <= h < g ==> (#[trigger] groups@[h]).specs@.len() > 0,
        decreases keys.len() - g,
    {
        let specs = rows_of_group(&assign, g, cols, rows);
        proof {
            assert(group_used(assign@, n as int, g as int));
            let k = choose|k: int| 0 <= k < n && #[trigger] assign@[k] == g;
            let j = choose|j: int| 0 <= j < specs@.len() && (#[trigger] specs@[j]).0 == k;
        }
        groups.push(TileGroup { path: keys[g].0.clone(), ifd: keys[g].1, specs });
        g = g + 1;
    }
    proof {
        let gs = groups@;
        assert forall|g1: int, g2: int|
            0 <= g1 < gs.len() && 0 <= g2 < gs.len() && g1 != g2
                implies group_key(#[trigger] gs[g1]) != group_key(#[trigger] gs[g2]) by {
            assert(keys@[g1] == keys@[g1] && keys@[g2] == keys@[g2]);
        }
        assert forall|gg: int, j: int|
            #![trigger gs[gg].specs@[j]]
            0 <= gg < gs.len() && 0 <= j < gs[gg].specs@.len() implies {
                let (i, c, r) = gs[gg].specs@[j];
                &&& i < n
                &&& row_key(paths@, ifd_indices@, i as int) == group_key(gs[gg])
                &&& c == as_index(cols@[i as int])
                &&& r == as_index(rows@[i as int])
            } by {
            assert(is_group_of(gs[gg].specs@, gg, assign@, cols@, rows@));
            let (i, c, r) = gs[gg].specs@[j];
            assert(assign@[i as int] == gg);
        }
        assert forall|gg: int, j1: int, j2: int|
            #![trigger gs[gg].specs@[j1], gs[gg].specs@[j2]]
            0 <= gg < gs.len() && 0 <= j1 < j2 < gs[gg].specs@.len()
                implies gs[gg].specs@[j1].0 < gs[gg].specs@[j2].0 by {
            assert(is_group_of(gs[gg].specs@, gg, assign@, cols@, rows@));
        }
        assert forall|i: int| 0 <= i < n implies #[trigger] row_in_groups(gs, i) by {
            let gg = assign@[i] as int;
            assert(is_group_of(gs[gg].specs@, gg, assign@, cols@, rows@));
            let j = choose|j: int| 0 <= j < gs[gg].specs@.len() && (#[trigger] gs[gg].specs@[j]).0 == i;
        }
    }
    groups
}

} // verus!

verus! {

/// The view of a result whose success value is a vector.
pub open spec fn result_seq<A, E>(r: Result<Vec<A>, E>) -> Result<Seq<A>, E> {
    match r {
        Ok(v) => Ok(v@),
        Err(e) => Err(e),
    }
}

/// The first `m` decoded tiles of a group, each with the request row it
/// answers, or the first decoding error among them.
pub open spec fn paired_upto<T, E>(
    specs: Seq<(usize, usize, usize)>,
    decoded: Seq<Result<T, E>>,
    m: nat,
) -> Result<Seq<(usize, T)>, E>
    decreases m,
{
    if m == 0 {
        Ok(Seq::empty())
    } else {
        match paired_upto(specs, decoded, (m - 1) as nat) {
            Err(e) => Err(e),
            Ok(s) => match decoded[m - 1] {
                Ok(v) => Ok(s.push((specs[m - 1].0, v))),
                Err(e) => Err(e),
            },
        }
    }
}

/// The decoded tiles of a group paired, in order, with the request rows
/// they answer (as far as both lists go), or the first decoding error.
pub open spec fn paired<T, E>(specs: Seq<(usize, usize, usize)>, decoded: Seq<Result<T, E>>) -> Result<
    Seq<(usize, T)>,
    E,
> {
    let m = if specs.len() <= decoded.len() { specs.len() } else { decoded.len() };
    paired_upto(specs, decoded, m)
}

/// Pairs the decoded tiles of a group, in order, with the request rows
/// they answer; fails with the first decoding error.
pub fn pair_group_tiles<T, E>(specs: &Vec<(usize, usize, usize)>, decoded: Vec<Result<T, E>>) -> (r: Result<
    Vec<(usize, T)>,
    E,
>)
    ensures
        result_seq(r) == paired(specs@, decoded@),
{
    let ghost all = decoded@;
    let n_specs = specs.len();
    let total = decoded.len();
    let mut out: Vec<(usize, T)> = Vec::new();
    let mut k: usize = 0;
    for res in it: decoded.into_iter()
        invariant
            all == it.seq(),
            total == all.len(),
            k == it.index(),
            n_specs == specs@.len(),
            paired_upto(
                specs@,
                all,
                if it.index() <= n_specs { it.index() as nat } else { n_specs as nat },
            ) == Ok::<Seq<(usize, T)>, E>(out@),
    {
        if k < n_specs {
            match res {
                Ok(v) => {
                    out.push((specs[k].0, v));
                },
                Err(e) => {
                    assert(paired_upto(specs@, all, (k + 1) as nat) == Err::<Seq<(usize, T)>, E>(e));
                    proof { lemma_paired_err_sticks(specs@, all, (k + 1) as nat); }
                    return Err(e);
                },
            }
        }
        k = k + 1;
    }
    Ok(out)
}

/// Once pairing has failed, it stays failed with the same error.
proof fn lemma_paired_err_sticks<T, E>(
    specs: Seq<(usize, usize, usize)>,
    decoded: Seq<Result<T, E>>,
    m: nat,
)
    requires
        paired_upto(specs, decoded, m) is Err,
    ensures
        forall|m2: nat| m <= m2 ==> #[trigger] paired_upto(specs, decoded, m2) == paired_upto(specs, decoded, m),
{
    assert forall|m2: nat| m <= m2 implies #[trigger] paired_upto(specs, decoded, m2) == paired_upto(
        specs,
        decoded,
        m,
    ) by {
        lemma_paired_err_sticks_to(specs, decoded, m, m2);
    }
}

proof fn lemma_paired_err_sticks_to<T, E>(
    specs: Seq<(usize, usize, usize)>,
    decoded: Seq<Result<T, E>>,
    m: nat,
    m2: nat,
)
    requires
        paired_upto(specs, decoded, m) is Err,
        m <= m2,
    ensures
        paired_upto(specs, decoded, m2) == paired_upto(specs, decoded, m),
    decreases m2,
{
    if m2 > m {
        lemma_paired_err_sticks_to(specs, decoded, m, (m2 - 1) as nat);
    }
}

} // verus!

verus! {

/// The (request row, tile) pairs of the successful groups, in the order of
/// `results`.
pub open spec fn placed_pairs<T, E>(results: Seq<Result<Vec<(usize, T)>, E>>) -> Seq<(usize, T)>
    decreases results.len(),
{
    if results.len() == 0 {
        Seq::empty()
    } else {
        placed_pairs(results.drop_last()) + match results.last() {
            Ok(v) => v@,
            Err(_) => Seq::empty(),
        }
    }
}

/// The errors of the failed groups, in the order of `results`.
pub open spec fn group_errors<T, E>(results: Seq<Result<Vec<(usize, T)>, E>>) -> Seq<E>
    decreases results.len(),
{
    if results.len() == 0 {
        Seq::empty()
    } else {
        match results.last() {
            Ok(_) => group_errors(results.drop_last()),
            Err(e) => group_errors(results.drop_last()).push(e),
        }
    }
}

/// The tile placed last at request row `i`, if any.
pub open spec fn last_at<T>(pairs: Seq<(usize, T)>, i: int) -> Option<T>
    decreases pairs.len(),
{
    if pairs.len() == 0 {
        None
    } else if pairs.last().0 == i {
        Some(pairs.last().1)
    } else {
        last_at(pairs.drop_last(), i)
    }
}

/// Every placed tile names a request row below `n`.
pub open spec fn rows_below<T, E>(results: Seq<Result<Vec<(usize, T)>, E>>, n: nat) -> bool {
    forall|g: int, j: int|
        #![trigger results[g]->Ok_0@[j]]
        0 <= g < results.len() && results[g] is Ok && 0 <= j < results[g]->Ok_0@.len()
            ==> results[g]->Ok_0@[j].0 < n
}

/// Puts the decoded tiles of all groups back in request-row order: row
/// `i` of the output holds the tile placed (last) at row `i`, or nothing
/// when its group failed.  The errors of the failed groups are returned in
/// order.
pub fn scatter_by_row<T, E>(n: usize, results: Vec<Result<Vec<(usize, T)>, E>>) -> (r: (
    Vec<Option<T>>,
    Vec<E>,
))
    requires
        rows_below(results@, n as nat),
    ensures
        r.0@.len() == n,
        forall|i: int| 0 <= i < n ==> #[trigger] r.0@[i] == last_at(placed_pairs(results@), i),
        r.1@ == group_errors(results@),
{
    let ghost all = results@;
    let mut out: Vec<Option<T>> = Vec::new();
    let mut i: usize = 0;
    while i < n
        invariant
            i <= n,
            out@.len() == i,
            forall|k: int| 0 <= k < i ==> #[trigger] out@[k] == None::<T>,
        decreases n - i,
    {
        out.push(None);
        i = i + 1;
    }
    let mut errs: Vec<E> = Vec::new();
    let total = results.len();
    let mut g: usize = 0;
    for result in it: results.into_iter()
        invariant
            all == it.seq(),
            total == all.len(),
            g == it.index(),
            rows_below(all, n as nat),
            out@.len() == n,
            forall|k: int| 0 <= k < n ==> #[trigger] out@[k] == last_at(placed_pairs(all.take(g as int)), k),
            errs@ == group_errors(all.take(g as int)),
    {
        proof {
            assert(all.take(g + 1).drop_last() =~= all.take(g as int));
            assert(all.take(g + 1).last() == all[g as int]);
        }
        let ghost before = placed_pairs(all.take(g as int));
        match result {
            Ok(pairs) => {
                let ghost ps = pairs@;
                for pair in it2: pairs.into_iter()
                    invariant
                        ps == it2.seq(),
                        ps == all[g as int]->Ok_0@,
                        all[g as int] is Ok,
                        g < all.len(),
                        rows_below(all, n as nat),
                        out@.len() == n,
                        forall|k: int| 0 <= k < n ==> #[trigger] out@[k] == last_at(
                            before + ps.take(it2.index() as int),
                            k,
                        ),
                {
                    let ghost j = it2.index() as int;
                    assert(pair == ps[j]);
                    assert(all[g as int]->Ok_0@[j].0 < n);
                    let (idx, v) = pair;
                    let ghost prev = out@;
                    out.set(idx, Some(v));
                    proof {
                        let done = before + ps.take(j);
                        assert(before + ps.take(j + 1) =~= done.push(ps[j]));
                        assert forall|k: int| 0 <= k < n implies #[trigger] out@[k] == last_at(
                            done.push(ps[j]),
                            k,
                        ) by {
                            assert(done.push(ps[j]).drop_last() =~= done);
                            if k != idx {
                                assert(out@[k] == prev[k]);
                            }
                        }
                    }
                }
                proof {
                    assert(ps.take(ps.len() as int) =~= ps);
                }
            },
            Err(e) => {
                errs.push(e);
                proof {
                    assert(before + Seq::<(usize, T)>::empty() =~= before);
                }
            },
        }
        g = g + 1;
    }
    proof {
        assert(all.take(all.len() as int) =~= all);
    }
    (out, errs)
}

} // verus!

verus! {

/// The tiles of a group paired, in order, with the request rows they
/// answer.
pub open spec fn pairs_of<T>(specs: Seq<(usize, usize, usize)>, tiles: Seq<T>) -> Seq<(usize, T)> {
    Seq::new(specs.len(), |j: int| (specs[j].0, tiles[j]))
}

/// The tile placed last at row `i` of `a + b` is the one placed last in
/// `b`, or else the one placed last in `a`.
pub proof fn lemma_last_at_concat<T>(a: Seq<(usize, T)>, b: Seq<(usize, T)>, i: int)
    ensures
        last_at(a + b, i) == match last_at(b, i) {
            Some(x) => Some(x),
            None => last_at(a, i),
        },
    decreases b.len(),
{
    if b.len() > 0 {
        assert((a + b).drop_last() =~= a + b.drop_last());
        lemma_last_at_concat(a, b.drop_last(), i);
    } else {
        assert(a + b =~= a);
    }
}

/// Nothing is placed at a row that no pair names.
pub proof fn lemma_last_at_absent<T>(s: Seq<(usize, T)>, i: int)
    requires
        forall|k: int| 0 <= k < s.len() ==> (#[trigger] s[k]).0 != i,
    ensures
        last_at(s, i) == None::<T>,
    decreases s.len(),
{
    if s.len() > 0 {
        lemma_last_at_absent(s.drop_last(), i);
    }
}

/// The tile placed at a row is the one of the last pair naming it.
pub proof fn lemma_last_at_last_pair<T>(s: Seq<(usize, T)>, i: int, j: int)
    requires
        0 <= j < s.len(),
        s[j].0 == i,
        forall|k: int| j < k < s.len() ==> (#[trigger] s[k]).0 != i,
    ensures
        last_at(s, i) == Some(s[j].1),
    decreases s.len(),
{
    if j < s.len() - 1 {
        lemma_last_at_last_pair(s.drop_last(), i, j);
    }
}

/// When every tile of a group decodes, pairing gives each decoded tile
/// with the request row it answers.
pub proof fn lemma_paired_all_decoded<T, E>(
    specs: Seq<(usize, usize, usize)>,
    decoded: Seq<Result<T, E>>,
    tiles: Seq<T>,
)
    requires
        decoded.len() == specs.len(),
        tiles.len() == specs.len(),
        forall|k: int| 0 <= k < decoded.len() ==> #[trigger] decoded[k] == Ok::<T, E>(tiles[k]),
    ensures
        paired(specs, decoded) == Ok::<Seq<(usize, T)>, E>(pairs_of(specs, tiles)),
{
    lemma_paired_upto_ok(specs, decoded, tiles, specs.len());
    assert(pairs_of(specs, tiles).take(specs.len() as int) =~= pairs_of(specs, tiles));
}

proof fn lemma_paired_upto_ok<T, E>(
    specs: Seq<(usize, usize, usize)>,
    decoded: Seq<Result<T, E>>,
    tiles: Seq<T>,
    m: nat,
)
    requires
        decoded.len() == specs.len(),
        tiles.len() == specs.len(),
        m <= specs.len(),
        forall|k: int| 0 <= k < decoded.len() ==> #[trigger] decoded[k] == Ok::<T, E>(tiles[k]),
    ensures
        paired_upto(specs, decoded, m) == Ok::<Seq<(usize, T)>, E>(
            pairs_of(specs, tiles).take(m as int),
        ),
    decreases m,
{
    if m > 0 {
        lemma_paired_upto_ok(specs, decoded, tiles, (m - 1) as nat);
        assert(decoded[m - 1] == Ok::<T, E>(tiles[m - 1]));
        assert(pairs_of(specs, tiles).take(m as int) =~= pairs_of(specs, tiles).take(m - 1).push(
            (specs[m - 1].0, tiles[m - 1]),
        ));
    } else {
        assert(pairs_of(specs, tiles).take(0) =~= Seq::<(usize, T)>::empty());
    }
}

/// The tile positions (column, row) of a directory's tiles, in order.
pub open spec fn positions_of(specs: Seq<(usize, usize, usize)>) -> Seq<(usize, usize)> {
    specs.map_values(|t: (usize, usize, usize)| (t.1, t.2))
}

/// The tile positions (column, row) of a group, in order.
pub fn group_positions(specs: &Vec<(usize, usize, usize)>) -> (r: Vec<(usize, usize)>)
    ensures
        r@ == positions_of(specs@),
{
    let mut r: Vec<(usize, usize)> = Vec::new();
    let mut k: usize = 0;
    while k < specs.len()
        invariant
            k <= specs@.len(),
            r@ == specs@.take(k as int).map_values(|t: (usize, usize, usize)| (t.1, t.2)),
        decreases specs.len() - k,
    {
        let (_, c, row) = specs[k];
        r.push((c, row));
        assert(specs@.take(k + 1).map_values(|t: (usize, usize, usize)| (t.1, t.2))
            =~= specs@.take(k as int).map_values(|t: (usize, usize, usize)| (t.1, t.2)).push((c, row)));
        k = k + 1;
    }
    assert(specs@.take(specs@.len() as int) =~= specs@);
    r
}

/// The message that reports a refused tile request.
pub open spec fn tile_request_error_text(e: TileRequestError) -> Seq<char> {
    match e {
        TileRequestError::ColsRowsLengthMismatch => "cols and rows must have the same length"@,
        TileRequestError::RequestLengthMismatch =>
            "paths, ifd_indices, cols, rows must all have the same length"@,
    }
}

impl TileRequestError {
    /// The message that reports this error.
    pub fn message(&self) -> (r: &'static str)
        ensures
            r@ == tile_request_error_text(*self),
    {
        match self {
            TileRequestError::ColsRowsLengthMismatch => "cols and rows must have the same length",
            TileRequestError::RequestLengthMismatch =>
                "paths, ifd_indices, cols, rows must all have the same length",
        }
    }
}

} // verus!

verus! {

/// The tiles requested from one directory of a file: each is
/// `(row of the request, tile column, tile row)`.
pub struct DirRequest {
    pub ifd: usize,
    pub specs: Vec<(usize, usize, usize)>,
}

/// The tiles requested from one file, directory by directory.
pub struct FileRequest {
    pub path: String,
    pub dirs: Vec<DirRequest>,
}

/// Request row `i` is one of the tiles of some directory of some file.
pub open spec fn row_in_files(files: Seq<FileRequest>, i: int) -> bool {
    exists|f: int, d: int, j: int|
        0 <= f < files.len() && 0 <= d < files[f].dirs@.len() && 0 <= j
            < files[f].dirs@[d].specs@.len() && (#[trigger] files[f].dirs@[d].specs@[j]).0 == i
}

/// A grouping of the `n`-row request (`paths`, `ifd_indices`, `cols`,
/// `rows`) by file, and within each file by directory:
/// - no two files share a path, and no file is empty;
/// - no two directories of a file share an index, and no directory is empty;
/// - every tile of a directory belongs to a request row naming that file and
///   directory, and is that row's (column, row);
/// - within a directory the request rows are in increasing order;
/// - every request row is in some directory of some file.
pub open spec fn is_file_grouping(
    files: Seq<FileRequest>,
    paths: Seq<String>,
    ifd_indices: Seq<i32>,
    cols: Seq<i32>,
    rows: Seq<i32>,
) -> bool {
    let n = paths.len();
    &&& forall|f1: int, f2: int|
        0 <= f1 < files.len() && 0 <= f2 < files.len() && f1 != f2 ==> (#[trigger] files[f1]).path@
            != (#[trigger] files[f2]).path@
    &&& forall|f: int| 0 <= f < files.len() ==> (#[trigger] files[f]).dirs@.len() > 0
    &&& forall|f: int, d1: int, d2: int|
        0 <= f < files.len() && 0 <= d1 < files[f].dirs@.len() && 0 <= d2 < files[f].dirs@.len()
            && d1 != d2 ==> (#[trigger] files[f].dirs@[d1]).ifd != (#[trigger] files[f].dirs@[d2]).ifd
    &&& forall|f: int, d: int|
        0 <= f < files.len() && 0 <= d < files[f].dirs@.len() ==> (
        #[trigger] files[f].dirs@[d]).specs@.len() > 0
    &&& forall|f: int, d: int, j: int|
        #![trigger files[f].dirs@[d].specs@[j]]
        0 <= f < files.len() && 0 <= d < files[f].dirs@.len() && 0 <= j
            < files[f].dirs@[d].specs@.len() ==> {
            let (i, c, r) = files[f].dirs@[d].specs@[j];
            &&& i < n
            &&& paths[i as int]@ == files[f].path@
            &&& as_index(ifd_indices[i as int]) == files[f].dirs@[d].ifd
            &&& c == as_index(cols[i as int])
            &&& r == as_index(rows[i as int])
        }
    &&& forall|f: int, d: int, j1: int, j2: int|
        #![trigger files[f].dirs@[d].specs@[j1], files[f].dirs@[d].specs@[j2]]
        0 <= f < files.len() && 0 <= d < files[f].dirs@.len() && 0 <= j1 < j2
            < files[f].dirs@[d].specs@.len() ==> files[f].dirs@[d].specs@[j1].0
            < files[f].dirs@[d].specs@[j2].0
    &&& forall|i: int| 0 <= i < n ==> #[trigger] row_in_files(files, i)
}

/// The files of a directory grouping: `fkeys` are the distinct paths and
/// `fassign[g]` is the file of directory group `g`.
fn files_of_groups(groups: &Vec<TileGroup>) -> (r: (Vec<String>, Vec<usize>))
    ensures
        r.1@.len() == groups@.len(),
        forall|g: int|
            0 <= g < groups@.len() ==> (#[trigger] r.1@[g]) < r.0@.len() && r.0@[r.1@[g] as int]@
                == groups@[g].path@,
        forall|f1: int, f2: int|
            0 <= f1 < r.0@.len() && 0 <= f2 < r.0@.len() && f1 != f2 ==> (#[trigger] r.0@[f1])@
                != (#[trigger] r.0@[f2])@,
        forall|f: int| 0 <= f < r.0@.len() ==> #[trigger] group_used(r.1@, groups@.len() as int, f),
{
    let mut fkeys: Vec<String> = Vec::new();
    let mut fassign: Vec<usize> = Vec::new();
    let mut g: usize = 0;
    while g < groups.len()
        invariant
            g <= groups@.len(),
            fassign@.len() == g,
            forall|k: int|
                0 <= k < g ==> (#[trigger] fassign@[k]) < fkeys@.len() && fkeys@[fassign@[k] as int]@
                    == groups@[k].path@,
            forall|f1: int, f2: int|
                0 <= f1 < fkeys@.len() && 0 <= f2 < fkeys@.len() && f1 != f2 ==> (
                #[trigger] fkeys@[f1])@ != (#[trigger] fkeys@[f2])@,
            forall|f: int| 0 <= f < fkeys@.len() ==> #[trigger] group_used(fassign@, g as int, f),
        decreases groups.len() - g,
    {
        let ghost old_assign = fassign@;
        let ghost old_keys = fkeys@;
        let mut found: Option<usize> = None;
        let mut f: usize = 0;
        while f < fkeys.len()
            invariant
                f <= fkeys@.len(),
                g < groups@.len(),
                found matches Some(h) ==> h < fkeys@.len() && fkeys@[h as int]@ == groups@[g as int].path@,
                found is None ==> forall|h: int| 0 <= h < f ==> fkeys@[h]@ != groups@[g as int].path@,
            decreases fkeys.len() - f,
        {
            if found.is_none() && fkeys[f] == groups[g].path {
                found = Some(f);
            }
            f = f + 1;
        }
        match found {
            Some(h) => {
                fassign.push(h);
            },
            None => {
                let h = fkeys.len();
                fkeys.push(groups[g].path.clone());
                fassign.push(h);
            },
        }
        proof {
            assert forall|h: int| 0 <= h < fkeys@.len() implies #[trigger] group_used(
                fassign@,
                g + 1,
                h,
            ) by {
                if h < old_keys.len() {
                    assert(group_used(old_assign, g as int, h));
                    let k = choose|k: int| 0 <= k < g && #[trigger] old_assign[k] == h;
                    assert(fassign@[k] == h);
                } else {
                    assert(fassign@[g as int] == h);
                }
            }
            assert forall|k: int| 0 <= k < g + 1 implies (#[trigger] fassign@[k]) < fkeys@.len()
                && fkeys@[fassign@[k] as int]@ == groups@[k].path@ by {
                if k < g {
                    assert(fassign@[k] == old_assign[k]);
                    assert(fkeys@[old_assign[k] as int] == old_keys[old_assign[k] as int]);
                }
            }
        }
        g = g + 1;
    }
    (fkeys, fassign)
}

/// A copy of a tile list.
fn copy_specs(v: &Vec<(usize, usize, usize)>) -> (r: Vec<(usize, usize, usize)>)
    ensures
        r@ == v@,
{
    let mut r: Vec<(usize, usize, usize)> = Vec::new();
    let mut k: usize = 0;
    while k < v.len()
        invariant
            k <= v@.len(),
            r@ == v@.take(k as int),
        decreases v.len() - k,
    {
        r.push(v[k]);
        assert(v@.take(k + 1) =~= v@.take(k as int).push(v@[k as int]));
        k = k + 1;
    }
    assert(v@.take(v@.len() as int) =~= v@);
    r
}

/// The directories of file `f`: one per directory group of that file, in
/// group order.  The ghost sequence gives the group each came from.
fn dirs_of_file(groups: &Vec<TileGroup>, fassign: &Vec<usize>, f: usize) -> (r: (
    Vec<DirRequest>,
    Ghost<Seq<int>>,
))
    requires
        fassign@.len() == groups@.len(),
    ensures
        r.0@.len() == r.1@.len(),
        forall|d: int|
            0 <= d < r.1@.len() ==> {
                let g = #[trigger] r.1@[d];
                &&& 0 <= g < groups@.len()
                &&& fassign@[g] == f
                &&& r.0@[d].ifd == groups@[g].ifd
                &&& r.0@[d].specs@ == groups@[g].specs@
            },
        forall|d1: int, d2: int|
            0 <= d1 < d2 < r.1@.len() ==> (#[trigger] r.1@[d1]) < (#[trigger] r.1@[d2]),
        forall|g: int|
            0 <= g < groups@.len() && #[trigger] fassign@[g] == f ==> exists|d: int|
                0 <= d < r.1@.len() && #[trigger] r.1@[d] == g,
{
    let mut dirs: Vec<DirRequest> = Vec::new();
    let ghost mut srcs: Seq<int> = Seq::empty();
    let mut g: usize = 0;
    while g < groups.len()
        invariant
            fassign@.len() == groups@.len(),
            g <= groups@.len(),
            dirs@.len() == srcs.len(),
            forall|d: int|
                0 <= d < srcs.len() ==> {
                    let h = #[trigger] srcs[d];
                    &&& 0 <= h < g
                    &&& fassign@[h] == f
                    &&& dirs@[d].ifd == groups@[h].ifd
                    &&& dirs@[d].specs@ == groups@[h].specs@
                },
            forall|d1: int, d2: int| 0 <= d1 < d2 < srcs.len() ==> (#[trigger] srcs[d1]) < (
            #[trigger] srcs[d2]),
            forall|h: int|
                0 <= h < g && #[trigger] fassign@[h] == f ==> exists|d: int|
                    0 <= d < srcs.len() && #[trigger] srcs[d] == h,
        decreases groups.len() - g,
    {
        if fassign[g] == f {
            let ghost old_srcs = srcs;
            let specs = copy_specs(&groups[g].specs);
            dirs.push(DirRequest { ifd: groups[g].ifd, specs });
            proof {
                srcs = srcs.push(g as int);
                assert forall|h: int|
                    0 <= h < g + 1 && #[trigger] fassign@[h] == f implies exists|d: int|
                        0 <= d < srcs.len() && #[trigger] srcs[d] == h by {
                    if h < g {
                        let d = choose|d: int| 0 <= d < old_srcs.len() && #[trigger] old_srcs[d] == h;
                        assert(srcs[d] == h);
                    } else {
                        assert(srcs[old_srcs.len() as int] == h);
                    }
                }
            }
        }
        g = g + 1;
    }
    (dirs, Ghost(srcs))
}

/// Groups the rows of a multi-file tile request by file, and within each
/// file by directory, so that each file is opened once and the tiles of
/// each of its directories fetched together.  Refuses the request with
/// [`TileRequestError::RequestLengthMismatch`] exactly when the four
/// vectors differ in length.
pub fn group_tile_requests(
    paths: &Vec<String>,
    ifd_indices: &[i32],
    cols: &[i32],
    rows: &[i32],
) -> (r: Result<Vec<FileRequest>, TileRequestError>)
    ensures
        r is Ok <==> (ifd_indices@.len() == paths@.len() && cols@.len() == paths@.len()
            && rows@.len() == paths@.len()),
        r is Err ==> r == Err::<Vec<FileRequest>, TileRequestError>(
            TileRequestError::RequestLengthMismatch,
        ),
        r matches Ok(files) ==> is_file_grouping(files@, paths@, ifd_indices@, cols@, rows@),
{
    let n = paths.len();
    if ifd_indices.len() != n || cols.len() != n || rows.len() != n {
        return Err(TileRequestError::RequestLengthMismatch);
    }
    let groups = group_by_directory(paths, ifd_indices, cols, rows);
    let (fkeys, fassign) = files_of_groups(&groups);
    let ghost gs = groups@;
    let mut files: Vec<FileRequest> = Vec::new();
    let ghost mut all_srcs: Seq<Seq<int>> = Seq::empty();
    let mut f: usize = 0;
    while f < fkeys.len()
        invariant
            is_grouping(gs, paths@, ifd_indices@, cols@, rows@),
            gs == groups@,
            fassign@.len() == gs.len(),
            forall|g: int|
                0 <= g < gs.len() ==> (#[trigger] fassign@[g]) < fkeys@.len()
                    && fkeys@[fassign@[g] as int]@ == gs[g].path@,
            forall|f1: int| 0 <= f1 < fkeys@.len() ==> #[trigger] group_used(fassign@, gs.len() as int, f1),
            f <= fkeys@.len(),
            files@.len() == f,
            all_srcs.len() == f,
            forall|f1: int|
                0 <= f1 < f ==> (#[trigger] files@[f1]).path@ == fkeys@[f1]@
                    && files@[f1].dirs@.len() == all_srcs[f1].len(),
            forall|f1: int, d: int|
                0 <= f1 < f && 0 <= d < all_srcs[f1].len() ==> {
                    let g = #[trigger] all_srcs[f1][d];
                    &&& 0 <= g < gs.len()
                    &&& fassign@[g] == f1
                    &&& files@[f1].dirs@[d].ifd == gs[g].ifd
                    &&& files@[f1].dirs@[d].specs@ == gs[g].specs@
                },
            forall|f1: int, d1: int, d2: int|
                0 <= f1 < f && 0 <= d1 < d2 < all_srcs[f1].len() ==> (#[trigger] all_srcs[f1][d1]) < (
                #[trigger] all_srcs[f1][d2]),
            forall|g: int|
                0 <= g < gs.len() && (#[trigger] fassign@[g]) < f ==> exists|d: int|
                    0 <= d < all_srcs[fassign@[g] as int].len() && #[trigger] all_srcs[fassign@[g] as int][d]
                        == g,
        decreases fkeys.len() - f,
    {
        let (dirs, Ghost(srcs)) = dirs_of_file(&groups, &fassign, f);
        files.push(FileRequest { path: fkeys[f].clone(), dirs });
        proof {
            let old_all = all_srcs;
            all_srcs = all_srcs.push(srcs);
            assert forall|g: int|
                0 <= g < gs.len() && (#[trigger] fassign@[g]) < f + 1 implies exists|d: int|
                    0 <= d < all_srcs[fassign@[g] as int].len() && #[trigger] all_srcs[fassign@[g] as int][d]
                        == g by {
                if fassign@[g] < f {
                    assert(all_srcs[fassign@[g] as int] == old_all[fassign@[g] as int]);
                } else {
                    assert(all_srcs[fassign@[g] as int] == srcs);
                }
            }
        }
        f = f + 1;
    }
    proof {
        let fs = files@;
        assert forall|f1: int, f2: int|
            0 <= f1 < fs.len() && 0 <= f2 < fs.len() && f1 != f2 implies (#[trigger] fs[f1]).path@
                != (#[trigger] fs[f2]).path@ by {
            assert(fkeys@[f1] == fkeys@[f1] && fkeys@[f2] == fkeys@[f2]);
        }
        assert forall|f1: int| 0 <= f1 < fs.len() implies (#[trigger] fs[f1]).dirs@.len() > 0 by {
            assert(group_used(fassign@, gs.len() as int, f1));
            let g = choose|g: int| 0 <= g < gs.len() && #[trigger] fassign@[g] == f1;
            let d = choose|d: int|
                0 <= d < all_srcs[fassign@[g] as int].len() && #[trigger] all_srcs[fassign@[g] as int][d] == g;
        }
        assert forall|f1: int, d1: int, d2: int|
            0 <= f1 < fs.len() && 0 <= d1 < fs[f1].dirs@.len() && 0 <= d2 < fs[f1].dirs@.len() && d1
                != d2 implies (#[trigger] fs[f1].dirs@[d1]).ifd != (#[trigger] fs[f1].dirs@[d2]).ifd by {
            let g1 = all_srcs[f1][d1];
            let g2 = all_srcs[f1][d2];
            if d1 < d2 {
                assert(all_srcs[f1][d1] < all_srcs[f1][d2]);
            } else {
                assert(all_srcs[f1][d2] < all_srcs[f1][d1]);
            }
            assert(group_key(gs[g1]) != group_key(gs[g2]));
            assert(gs[g1].path@ == fkeys@[f1]@);
            assert(gs[g2].path@ == fkeys@[f1]@);
        }
        assert forall|f1: int, d: int|
            0 <= f1 < fs.len() && 0 <= d < fs[f1].dirs@.len() implies (
            #[trigger] fs[f1].dirs@[d]).specs@.len() > 0 by {
            let g = all_srcs[f1][d];
            assert(gs[g].specs@.len() > 0);
        }
        assert forall|f1: int, d: int, j: int|
            #![trigger fs[f1].dirs@[d].specs@[j]]
            0 <= f1 < fs.len() && 0 <= d < fs[f1].dirs@.len() && 0 <= j < fs[f1].dirs@[d].specs@.len()
                implies {
                let (i, c, r) = fs[f1].dirs@[d].specs@[j];
                &&& i < n
                &&& paths@[i as int]@ == fs[f1].path@
                &&& as_index(ifd_indices@[i as int]) == fs[f1].dirs@[d].ifd
                &&& c == as_index(cols@[i as int])
                &&& r == as_index(rows@[i as int])
            } by {
            let g = all_srcs[f1][d];
            assert(fs[f1].dirs@[d].specs@[j] == gs[g].specs@[j]);
            let (i, c, r) = gs[g].specs@[j];
            assert(row_key(paths@, ifd_indices@, i as int) == group_key(gs[g]));
        }
        assert forall|f1: int, d: int, j1: int, j2: int|
            #![trigger fs[f1].dirs@[d].specs@[j1], fs[f1].dirs@[d].specs@[j2]]
            0 <= f1 < fs.len() && 0 <= d < fs[f1].dirs@.len() && 0 <= j1 < j2
                < fs[f1].dirs@[d].specs@.len() implies fs[f1].dirs@[d].specs@[j1].0
                < fs[f1].dirs@[d].specs@[j2].0 by {
            let g = all_srcs[f1][d];
            assert(fs[f1].dirs@[d].specs@[j1] == gs[g].specs@[j1]);
            assert(fs[f1].dirs@[d].specs@[j2] == gs[g].specs@[j2]);
            assert(gs[g].specs@[j1].0 < gs[g].specs@[j2].0);
        }
        assert forall|i: int| 0 <= i < n implies #[trigger] row_in_files(fs, i) by {
            assert(row_in_groups(gs, i));
            let (g, j) = choose|g: int, j: int|
                0 <= g < gs.len() && 0 <= j < gs[g].specs@.len() && (#[trigger] gs[g].specs@[j]).0 == i;
            let f1 = fassign@[g] as int;
            let d = choose|d: int| 0 <= d < all_srcs[f1].len() && #[trigger] all_srcs[f1][d] == g;
            assert(fs[f1].dirs@[d].specs@[j] == gs[g].specs@[j]);
        }
    }
    Ok(files)
}

} // verus!

verus! {

/// Directory `d` of file `f` is a directory of the grouping.
pub open spec fn is_dir_of(files: Seq<FileRequest>, fd: (int, int)) -> bool {
    0 <= fd.0 < files.len() && 0 <= fd.1 < files[fd.0].dirs@.len()
}

/// The (request row, tile) pairs that a directory yields when every one of
/// its tiles decodes, `tile(path, ifd, column, row)` being the decoded tile.
pub open spec fn dir_tiles<T>(
    tile: spec_fn(Seq<char>, usize, usize, usize) -> T,
    path: Seq<char>,
    dir: DirRequest,
) -> Seq<(usize, T)> {
    Seq::new(
        dir.specs@.len(),
        |j: int| (dir.specs@[j].0, tile(path, dir.ifd, dir.specs@[j].1, dir.specs@[j].2)),
    )
}

/// The results of the directories of a grouping, `results[q]` being that of
/// directory `order[q]`, in some order:
/// - each directory has exactly one result;
/// - a directory's result is `Ok` exactly when `ok` holds of its (path,
///   directory index), and then it pairs each of its request rows with the
///   decoded tile.
pub open spec fn answers_dirs<T, E>(
    files: Seq<FileRequest>,
    order: Seq<(int, int)>,
    results: Seq<Result<Vec<(usize, T)>, E>>,
    ok: spec_fn(Seq<char>, usize) -> bool,
    tile: spec_fn(Seq<char>, usize, usize, usize) -> T,
) -> bool {
    &&& results.len() == order.len()
    &&& forall|q: int| 0 <= q < order.len() ==> is_dir_of(files, #[trigger] order[q])
    &&& forall|q1: int, q2: int|
        0 <= q1 < order.len() && 0 <= q2 < order.len() && q1 != q2 ==> #[trigger] order[q1]
            != #[trigger] order[q2]
    &&& forall|f: int, d: int|
        is_dir_of(files, (f, d)) ==> exists|q: int| 0 <= q < order.len() && #[trigger] order[q] == (f, d)
    &&& forall|q: int|
        #![trigger results[q]]
        0 <= q < order.len() ==> {
            let (f, d) = order[q];
            let dir = files[f].dirs@[d];
            &&& (results[q] is Ok <==> ok(files[f].path@, dir.ifd))
            &&& (results[q] is Ok ==> results[q]->Ok_0@ == dir_tiles(tile, files[f].path@, dir))
        }
}

/// What row `i` of a multi-file tile request is answered with: the decoded
/// tile (column, row) of its directory of its file when that directory's
/// tiles all fetch and decode, else nothing.
pub open spec fn expected_row<T>(
    paths: Seq<String>,
    ifd_indices: Seq<i32>,
    cols: Seq<i32>,
    rows: Seq<i32>,
    ok: spec_fn(Seq<char>, usize) -> bool,
    tile: spec_fn(Seq<char>, usize, usize, usize) -> T,
    i: int,
) -> Option<T> {
    if ok(paths[i]@, as_index(ifd_indices[i])) {
        Some(tile(paths[i]@, as_index(ifd_indices[i]), as_index(cols[i]), as_index(rows[i])))
    } else {
        None
    }
}

/// A request row is in exactly one directory of a file grouping, at one
/// place.
pub proof fn lemma_row_in_one_dir(
    files: Seq<FileRequest>,
    paths: Seq<String>,
    ifd_indices: Seq<i32>,
    cols: Seq<i32>,
    rows: Seq<i32>,
    f1: int,
    d1: int,
    j1: int,
    f2: int,
    d2: int,
    j2: int,
)
    requires
        is_file_grouping(files, paths, ifd_indices, cols, rows),
        is_dir_of(files, (f1, d1)),
        is_dir_of(files, (f2, d2)),
        0 <= j1 < files[f1].dirs@[d1].specs@.len(),
        0 <= j2 < files[f2].dirs@[d2].specs@.len(),
        files[f1].dirs@[d1].specs@[j1].0 == files[f2].dirs@[d2].specs@[j2].0,
    ensures
        f1 == f2,
        d1 == d2,
        j1 == j2,
{
    let s1 = files[f1].dirs@[d1].specs@[j1];
    let s2 = files[f2].dirs@[d2].specs@[j2];
    assert(paths[s1.0 as int]@ == files[f1].path@);
    assert(paths[s2.0 as int]@ == files[f2].path@);
    if f1 != f2 {
        assert(files[f1].path@ != files[f2].path@);
    }
    assert(files[f1].dirs@[d1].ifd == as_index(ifd_indices[s1.0 as int]));
    assert(files[f2].dirs@[d2].ifd == as_index(ifd_indices[s2.0 as int]));
    if d1 != d2 {
        assert(files[f1].dirs@[d1].ifd != files[f1].dirs@[d2].ifd);
    }
    if j1 < j2 {
        assert(files[f1].dirs@[d1].specs@[j1].0 < files[f1].dirs@[d1].specs@[j2].0);
    } else if j2 < j1 {
        assert(files[f1].dirs@[d1].specs@[j2].0 < files[f1].dirs@[d1].specs@[j1].0);
    }
}

/// The pairs of the first `m + 1` results are those of the first `m`, then
/// those of result `m`.
proof fn lemma_placed_pairs_step<T, E>(results: Seq<Result<Vec<(usize, T)>, E>>, m: int)
    requires
        0 <= m < results.len(),
    ensures
        placed_pairs(results.take(m + 1)) == placed_pairs(results.take(m)) + match results[m] {
            Ok(v) => v@,
            Err(_) => Seq::empty(),
        },
{
    assert(results.take(m + 1).drop_last() =~= results.take(m));
    assert(results.take(m + 1).last() == results[m]);
}

/// Rows of a multi-file tile request keep their own tiles: whatever order
/// the directories' results come in, once they are put back by row
/// ([`scatter_by_row`]), row `i` holds the decoded tile (`cols[i]`,
/// `rows[i]`) of directory `ifd_indices[i]` of file `paths[i]` when that
/// directory's tiles all fetched and decoded, and nothing when they did
/// not; a failed directory leaves every other row as it is.  Every placed
/// tile names a row of the request.
pub proof fn lemma_rows_get_their_tiles<T, E>(
    files: Seq<FileRequest>,
    paths: Seq<String>,
    ifd_indices: Seq<i32>,
    cols: Seq<i32>,
    rows: Seq<i32>,
    order: Seq<(int, int)>,
    results: Seq<Result<Vec<(usize, T)>, E>>,
    ok: spec_fn(Seq<char>, usize) -> bool,
    tile: spec_fn(Seq<char>, usize, usize, usize) -> T,
)
    requires
        is_file_grouping(files, paths, ifd_indices, cols, rows),
        answers_dirs(files, order, results, ok, tile),
    ensures
        rows_below(results, paths.len()),
        forall|i: int|
            0 <= i < paths.len() ==> #[trigger] last_at(placed_pairs(results), i) == expected_row(
                paths,
                ifd_indices,
                cols,
                rows,
                ok,
                tile,
                i,
            ),
{
    assert forall|q: int, j: int|
        #![trigger results[q]->Ok_0@[j]]
        0 <= q < results.len() && results[q] is Ok && 0 <= j < results[q]->Ok_0@.len()
            implies results[q]->Ok_0@[j].0 < paths.len() by {
        let (f, d) = order[q];
        assert(is_dir_of(files, order[q]));
        assert(results[q]->Ok_0@[j].0 == files[f].dirs@[d].specs@[j].0);
    }
    assert forall|i: int| 0 <= i < paths.len() implies #[trigger] last_at(placed_pairs(results), i)
        == expected_row(paths, ifd_indices, cols, rows, ok, tile, i) by {
        lemma_row_answered(files, paths, ifd_indices, cols, rows, order, results, ok, tile, i);
    }
}

proof fn lemma_row_answered<T, E>(
    files: Seq<FileRequest>,
    paths: Seq<String>,
    ifd_indices: Seq<i32>,
    cols: Seq<i32>,
    rows: Seq<i32>,
    order: Seq<(int, int)>,
    results: Seq<Result<Vec<(usize, T)>, E>>,
    ok: spec_fn(Seq<char>, usize) -> bool,
    tile: spec_fn(Seq<char>, usize, usize, usize) -> T,
    i: int,
)
    requires
        is_file_grouping(files, paths, ifd_indices, cols, rows),
        answers_dirs(files, order, results, ok, tile),
        0 <= i < paths.len(),
    ensures
        last_at(placed_pairs(results), i) == expected_row(
            paths,
            ifd_indices,
            cols,
            rows,
            ok,
            tile,
            i,
        ),
{
    assert(row_in_files(files, i));
    let (f, d, j) = choose|f: int, d: int, j: int|
        0 <= f < files.len() && 0 <= d < files[f].dirs@.len() && 0 <= j
            < files[f].dirs@[d].specs@.len() && (#[trigger] files[f].dirs@[d].specs@[j]).0 == i;
    assert(is_dir_of(files, (f, d)));
    let q = choose|q: int| 0 <= q < order.len() && #[trigger] order[q] == (f, d);
    lemma_row_answered_upto(
        files,
        paths,
        ifd_indices,
        cols,
        rows,
        order,
        results,
        ok,
        tile,
        i,
        f,
        d,
        j,
        q,
        results.len() as int,
    );
    assert(results.take(results.len() as int) =~= results);
}

proof fn lemma_row_answered_upto<T, E>(
    files: Seq<FileRequest>,
    paths: Seq<String>,
    ifd_indices: Seq<i32>,
    cols: Seq<i32>,
    rows: Seq<i32>,
    order: Seq<(int, int)>,
    results: Seq<Result<Vec<(usize, T)>, E>>,
    ok: spec_fn(Seq<char>, usize) -> bool,
    tile: spec_fn(Seq<char>, usize, usize, usize) -> T,
    i: int,
    f: int,
    d: int,
    j: int,
    q: int,
    m: int,
)
    requires
        is_file_grouping(files, paths, ifd_indices, cols, rows),
        answers_dirs(files, order, results, ok, tile),
        0 <= i < paths.len(),
        is_dir_of(files, (f, d)),
        0 <= j < files[f].dirs@[d].specs@.len(),
        files[f].dirs@[d].specs@[j].0 == i,
        0 <= q < order.len(),
        order[q] == (f, d),
        0 <= m <= results.len(),
    ensures
        last_at(placed_pairs(results.take(m)), i) == if q < m {
            expected_row(paths, ifd_indices, cols, rows, ok, tile, i)
        } else {
            None
        },
    decreases m,
{
    if m == 0 {
        assert(results.take(0) =~= Seq::<Result<Vec<(usize, T)>, E>>::empty());
        return;
    }
    let p = m - 1;
    lemma_row_answered_upto(files, paths, ifd_indices, cols, rows, order, results, ok, tile, i, f, d, j, q, p);
    let dir = files[f].dirs@[d];
    let path = files[f].path@;
    assert(paths[i]@ == path && as_index(ifd_indices[i]) == dir.ifd);
    assert(dir.specs@[j].1 == as_index(cols[i]) && dir.specs@[j].2 == as_index(rows[i]));
    lemma_placed_pairs_step(results, p);
    let here = match results[p] {
        Ok(v) => v@,
        Err(_) => Seq::<(usize, T)>::empty(),
    };
    lemma_last_at_concat(placed_pairs(results.take(p)), here, i);
    assert(results[p] == results[p]);
    if p == q {
        if results[p] is Ok {
            assert(here == dir_tiles(tile, path, dir));
            assert forall|k: int| j < k < here.len() implies (#[trigger] here[k]).0 != i by {
                assert(dir.specs@[j].0 < dir.specs@[k].0);
            }
            lemma_last_at_last_pair(here, i, j);
        } else {
            lemma_last_at_absent(here, i);
        }
    } else {
        let (f2, d2) = order[p];
        assert(is_dir_of(files, order[p]));
        assert forall|k: int| 0 <= k < here.len() implies (#[trigger] here[k]).0 != i by {
            if results[p] is Ok {
                assert(here[k].0 == files[f2].dirs@[d2].specs@[k].0);
                if here[k].0 == i {
                    lemma_row_in_one_dir(files, paths, ifd_indices, cols, rows, f, d, j, f2, d2, k);
                    assert(order[p] == order[q]);
                }
            }
        }
        lemma_last_at_absent(here, i);
    }
}

/// Reordering the rows of a multi-file tile request reorders its answer in
/// the same way: when row `j` of the second request is row `pi[j]` of the
/// first (`pi` a permutation), and the files give the same outcomes to
/// both, row `j` of the second answer is row `pi[j]` of the first, whatever
/// order either request's directories were worked on in.
pub proof fn lemma_answer_follows_permutation<T, E>(
    paths: Seq<String>,
    ifd_indices: Seq<i32>,
    cols: Seq<i32>,
    rows: Seq<i32>,
    files: Seq<FileRequest>,
    order: Seq<(int, int)>,
    results: Seq<Result<Vec<(usize, T)>, E>>,
    pi: Seq<int>,
    paths2: Seq<String>,
    ifd_indices2: Seq<i32>,
    cols2: Seq<i32>,
    rows2: Seq<i32>,
    files2: Seq<FileRequest>,
    order2: Seq<(int, int)>,
    results2: Seq<Result<Vec<(usize, T)>, E>>,
    ok: spec_fn(Seq<char>, usize) -> bool,
    tile: spec_fn(Seq<char>, usize, usize, usize) -> T,
)
    requires
        pi.len() == paths.len(),
        forall|j: int| 0 <= j < pi.len() ==> 0 <= #[trigger] pi[j] < pi.len(),
        forall|j1: int, j2: int|
            0 <= j1 < pi.len() && 0 <= j2 < pi.len() && j1 != j2 ==> #[trigger] pi[j1] != #[trigger] pi[j2],
        paths2.len() == pi.len(),
        forall|j: int|
            0 <= j < pi.len() ==> {
                &&& (#[trigger] paths2[j])@ == paths[pi[j]]@
                &&& ifd_indices2[j] == ifd_indices[pi[j]]
                &&& cols2[j] == cols[pi[j]]
                &&& rows2[j] == rows[pi[j]]
            },
        is_file_grouping(files, paths, ifd_indices, cols, rows),
        answers_dirs(files, order, results, ok, tile),
        is_file_grouping(files2, paths2, ifd_indices2, cols2, rows2),
        answers_dirs(files2, order2, results2, ok, tile),
    ensures
        forall|j: int|
            0 <= j < pi.len() ==> #[trigger] last_at(placed_pairs(results2), j) == last_at(
                placed_pairs(results),
                pi[j],
            ),
{
    lemma_rows_get_their_tiles(files, paths, ifd_indices, cols, rows, order, results, ok, tile);
    lemma_rows_get_their_tiles(files2, paths2, ifd_indices2, cols2, rows2, order2, results2, ok, tile);
    assert forall|j: int| 0 <= j < pi.len() implies #[trigger] last_at(placed_pairs(results2), j)
        == last_at(placed_pairs(results), pi[j]) by {
        assert(last_at(placed_pairs(results), pi[j]) == expected_row(
            paths,
            ifd_indices,
            cols,
            rows,
            ok,
            tile,
            pi[j],
        ));
        assert(paths2[j]@ == paths[pi[j]]@);
    }
}

} // verus!

verus! {

/// A non-negative R integer names the index it holds.
pub proof fn lemma_index_of_r_integer(v: i32)
    ensures
        v >= 0 ==> as_index(v) as int == v as int,
{
}

/// The positions fetched for a directory of a file grouping
/// ([`group_positions`]) are, in order, the (column, row) that the
/// directory's request rows ask for, and each of those rows names that file
/// and directory.
pub proof fn lemma_fetched_positions_are_requested(
    files: Seq<FileRequest>,
    paths: Seq<String>,
    ifd_indices: Seq<i32>,
    cols: Seq<i32>,
    rows: Seq<i32>,
    f: int,
    d: int,
)
    requires
        is_file_grouping(files, paths, ifd_indices, cols, rows),
        is_dir_of(files, (f, d)),
    ensures
        ({
            let dir = files[f].dirs@[d];
            let pos = positions_of(dir.specs@);
            &&& pos.len() == dir.specs@.len()
            &&& forall|k: int|
                0 <= k < pos.len() ==> {
                    let i = dir.specs@[k].0 as int;
                    &&& 0 <= i < paths.len()
                    &&& #[trigger] pos[k] == (as_index(cols[i]), as_index(rows[i]))
                    &&& paths[i]@ == files[f].path@
                    &&& as_index(ifd_indices[i]) == dir.ifd
                }
        }),
{
    let dir = files[f].dirs@[d];
    assert forall|k: int| 0 <= k < positions_of(dir.specs@).len() implies {
        let i = dir.specs@[k].0 as int;
        &&& 0 <= i < paths.len()
        &&& #[trigger] positions_of(dir.specs@)[k] == (as_index(cols[i]), as_index(rows[i]))
        &&& paths[i]@ == files[f].path@
        &&& as_index(ifd_indices[i]) == dir.ifd
    } by {
        assert(files[f].dirs@[d].specs@[k] == dir.specs@[k]);
    }
}

} // verus!

verus! {

proof fn lemma_paired_ok_before<T, E>(specs: Seq<(usize, usize, usize)>, decoded: Seq<Result<T, E>>, m: nat)
    requires
        m <= specs.len(),
        m <= decoded.len(),
        forall|j: int| 0 <= j < m ==> (#[trigger] decoded[j]) is Ok,
    ensures
        paired_upto(specs, decoded, m) is Ok,
    decreases m,
{
    if m > 0 {
        lemma_paired_ok_before(specs, decoded, (m - 1) as nat);
        assert(decoded[m - 1] is Ok);
    }
}

/// Pairing a directory's decoded tiles fails with the first decoding error
/// among its tiles, whatever comes after it.
pub proof fn lemma_paired_first_error<T, E>(specs: Seq<(usize, usize, usize)>, decoded: Seq<Result<T, E>>, k: int)
    requires
        0 <= k < specs.len(),
        k < decoded.len(),
        decoded[k] is Err,
        forall|j: int| 0 <= j < k ==> (#[trigger] decoded[j]) is Ok,
    ensures
        paired(specs, decoded) == Err::<Seq<(usize, T)>, E>(decoded[k]->Err_0),
{
    lemma_paired_ok_before(specs, decoded, k as nat);
    assert(paired_upto(specs, decoded, (k + 1) as nat) == Err::<Seq<(usize, T)>, E>(decoded[k]->Err_0));
    lemma_paired_err_sticks(specs, decoded, (k + 1) as nat);
    let m = if specs.len() <= decoded.len() { specs.len() } else { decoded.len() };
    assert(paired_upto(specs, decoded, m as nat) == paired_upto(specs, decoded, (k + 1) as nat));
}

} // verus!

verus! {

/// Collecting the errors of failed directories: the errors of two runs of
/// results are those of the first followed by those of the second; a
/// directory whose tiles were paired gives none, one that failed gives its
/// error.
pub proof fn lemma_group_errors_concat<T, E>(
    a: Seq<Result<Vec<(usize, T)>, E>>,
    b: Seq<Result<Vec<(usize, T)>, E>>,
)
    ensures
        group_errors(a + b) == group_errors(a) + group_errors(b),
        forall|v: Vec<(usize, T)>| #[trigger] group_errors(seq![Ok::<Vec<(usize, T)>, E>(v)]) == Seq::<
            E,
        >::empty(),
        forall|e: E| #[trigger] group_errors(seq![Err::<Vec<(usize, T)>, E>(e)]) == seq![e],
    decreases b.len(),
{
    assert forall|v: Vec<(usize, T)>| #[trigger] group_errors(seq![Ok::<Vec<(usize, T)>, E>(v)]) == Seq::<
        E,
    >::empty() by {
        let s = seq![Ok::<Vec<(usize, T)>, E>(v)];
        assert(s.drop_last() =~= Seq::<Result<Vec<(usize, T)>, E>>::empty());
        assert(s.len() == 1 && s.last() == Ok::<Vec<(usize, T)>, E>(v));
        assert(group_errors(s.drop_last()) == Seq::<E>::empty());
    }
    assert forall|e: E| #[trigger] group_errors(seq![Err::<Vec<(usize, T)>, E>(e)]) == seq![e] by {
        let s = seq![Err::<Vec<(usize, T)>, E>(e)];
        assert(s.drop_last() =~= Seq::<Result<Vec<(usize, T)>, E>>::empty());
        assert(s.len() == 1 && s.last() == Err::<Vec<(usize, T)>, E>(e));
        assert(group_errors(s.drop_last()) == Seq::<E>::empty());
        assert(Seq::<E>::empty().push(e) =~= seq![e]);
    }
    if b.len() == 0 {
        assert(a + b =~= a);
        assert(group_errors(a) + Seq::<E>::empty() =~= group_errors(a));
    } else {
        lemma_group_errors_concat(a, b.drop_last());
        assert((a + b).drop_last() =~= a + b.drop_last());
        assert((a + b).last() == b.last());
        match b.last() {
            Ok(_) => {},
            Err(e) => {
                assert((group_errors(a) + group_errors(b.drop_last())).push(e) =~= group_errors(a)
                    + group_errors(b.drop_last()).push(e));
            },
        }
    }
}

} // verus!
