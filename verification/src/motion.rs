//! What one tick does to the contents of a grid: nothing is created or lost,
//! nothing falls more than one row, nothing leaves its column by more than
//! one, and what rests on the bottom row stays.

use vstd::prelude::*;
use vstd::arithmetic::div_mod::{lemma_fundamental_div_mod, lemma_mod_bound};
use vstd::seq_lib::to_multiset_update;
use crate::geometry::{col_of, lemma_coordinates, row_of};
use crate::material::{movement_of, Movement, AIR};
use crate::simulate::{
    before_visit, destination, exchange, scan_row, scan_rows, start, step, step_origin,
    step_trace, visit, Trace,
};

verus! {

/// Exchanging two items of a sequence keeps its multiset.
proof fn lemma_exchange_multiset<A>(s: Seq<A>, i: int, j: int)
    requires
        0 <= i < s.len(),
        0 <= j < s.len(),
    ensures
        exchange(s, i, j).to_multiset() == s.to_multiset(),
{
    let m = s.to_multiset();
    let s1 = s.update(i, s[j]);
    to_multiset_update(s, i, s[j]);
    to_multiset_update(s1, j, s[i]);
    if i == j {
        assert(exchange(s, i, j) =~= s);
    } else {
        assert(s1[j] == s[j]);
        s.to_multiset_ensures();
        assert(s.contains(s[i]));
        assert(s.contains(s[j]));
        assert(m.insert(s[j]).remove(s[i]).insert(s[i]).remove(s[j]) =~= m);
    }
}

/// The trace `t` rearranges the grid `s0` of width `w` and height `h`:
/// every cell holds what stood at its origin, no origin is used twice, no
/// content stands more than one row below its origin, and a material other
/// than air that has left its origin stands one row below it, at most one
/// column to the side.
spec fn rearranges(s0: Seq<u8>, t: Trace, w: int, h: int) -> bool {
    &&& s0.len() == w * h
    &&& t.cells.len() == s0.len()
    &&& t.origin.len() == s0.len()
    &&& t.cells.to_multiset() == s0.to_multiset()
    &&& forall|i: int|
        0 <= i < s0.len() ==> 0 <= #[trigger] t.origin[i] < s0.len() && t.cells[i]
            == s0[t.origin[i]]
    &&& forall|i: int, j: int|
        0 <= i < j < s0.len() ==> #[trigger] t.origin[i] != #[trigger] t.origin[j]
    &&& forall|i: int|
        0 <= i < s0.len() ==> row_of(w, i) <= row_of(w, #[trigger] t.origin[i]) + 1
    &&& forall|i: int|
        0 <= i < s0.len() && t.cells[i] != AIR && #[trigger] t.origin[i] != i ==> {
            &&& row_of(w, i) == row_of(w, t.origin[i]) + 1
            &&& -1 <= col_of(w, i) - col_of(w, t.origin[i]) <= 1
        }
}

/// In the trace `t` the cells before index `base`, and those from `base + n`
/// up to the end of the row of width `w` that begins at `base`, hold what
/// they held when the tick began.
spec fn untouched(t: Trace, base: int, n: int, w: int) -> bool {
    forall|i: int|
        (0 <= i < base || base + n <= i < base + w) && i < t.origin.len()
            ==> #[trigger] t.origin[i] == i
}

/// Where a visited cell's content goes: to the cell itself, or to an air cell
/// in the next row, at most one column to the side and inside the grid.
proof fn lemma_destination(s: Seq<u8>, w: int, h: int, x: int, y: int)
    requires
        0 <= x < w,
        0 <= y < h - 1,
        s.len() == w * h,
    ensures
        ({
            let i = y * w + x;
            let d = destination(s, w, x, y);
            &&& 0 <= i < s.len()
            &&& 0 <= y * w
            &&& i + w < s.len()
            &&& 0 <= d < s.len()
            &&& d == i || {
                let dx = d - i - w;
                &&& s[d] == AIR
                &&& s[i] != AIR
                &&& -1 <= dx <= 1
                &&& 0 <= x + dx < w
                &&& d == (y + 1) * w + (x + dx)
            }
        }),
{
    let i = y * w + x;
    let d = destination(s, w, x, y);
    assert(0 <= y * w) by (nonlinear_arith)
        requires
            0 <= y,
            0 < w,
    ;
    assert((y + 1) * w == y * w + w) by (nonlinear_arith);
    assert((y + 2) * w <= h * w) by (nonlinear_arith)
        requires
            y + 2 <= h,
            0 < w,
    ;
    assert((y + 2) * w == y * w + w + w) by (nonlinear_arith);
    assert(h * w == w * h) by (nonlinear_arith);
}

/// Visiting one cell keeps a rearrangement a rearrangement, and leaves the
/// cells that the scan has not reached as they were.
proof fn lemma_visit(s0: Seq<u8>, t: Trace, w: int, h: int, x: int, y: int)
    requires
        rearranges(s0, t, w, h),
        untouched(t, y * w, x, w),
        0 <= x < w,
        0 <= y < h - 1,
    ensures
        rearranges(s0, visit(t, w, x, y), w, h),
        untouched(visit(t, w, x, y), y * w, x + 1, w),
{
    let i = y * w + x;
    let d = destination(t.cells, w, x, y);
    let u = visit(t, w, x, y);
    lemma_destination(t.cells, w, h, x, y);
    lemma_coordinates(w, x, y);
    if d == i {
        assert(u.cells =~= t.cells);
        assert(u.origin =~= t.origin);
    } else {
        let dx = d - i - w;
        lemma_coordinates(w, x + dx, y + 1);
        lemma_exchange_multiset(t.cells, i, d);
        assert(t.origin[i] == i);
        assert(u.origin[d] == i);
        assert(u.origin[i] == t.origin[d]);
        assert(u.cells[i] == AIR);
        assert(row_of(w, d) == y + 1);
        assert(row_of(w, i) == y);
        assert forall|k: int| 0 <= k < s0.len() implies 0 <= #[trigger] u.origin[k] < s0.len()
            && u.cells[k] == s0[u.origin[k]] by {
            if k != i && k != d {
                assert(u.origin[k] == t.origin[k]);
            }
        }
        assert forall|k: int, j: int| 0 <= k < j < s0.len() implies #[trigger] u.origin[k]
            != #[trigger] u.origin[j] by {
            let pk = if k == i { d } else if k == d { i } else { k };
            let pj = if j == i { d } else if j == d { i } else { j };
            assert(u.origin[k] == t.origin[pk]);
            assert(u.origin[j] == t.origin[pj]);
            assert(pk != pj);
            if pk < pj {
                assert(t.origin[pk] != t.origin[pj]);
            } else {
                assert(t.origin[pj] != t.origin[pk]);
            }
        }
        assert forall|k: int| 0 <= k < s0.len() implies row_of(w, k) <= row_of(
            w,
            #[trigger] u.origin[k],
        ) + 1 by {
            if k == i {
                assert(row_of(w, d) <= row_of(w, t.origin[d]) + 1);
            } else if k == d {
            } else {
                assert(u.origin[k] == t.origin[k]);
            }
        }
        assert forall|k: int|
            0 <= k < s0.len() && u.cells[k] != AIR && #[trigger] u.origin[k] != k implies {
            &&& row_of(w, k) == row_of(w, u.origin[k]) + 1
            &&& -1 <= col_of(w, k) - col_of(w, u.origin[k]) <= 1
        } by {
            if k == d {
            } else if k != i {
                assert(u.origin[k] == t.origin[k]);
                assert(u.cells[k] == t.cells[k]);
            }
        }
        assert forall|k: int|
            (0 <= k < y * w || y * w + (x + 1) <= k < y * w + w) && k < u.origin.len()
                implies #[trigger] u.origin[k] == k by {
            assert(u.origin[k] == t.origin[k]);
        }
    }
}

/// Visiting the first `n` cells of a row keeps a rearrangement a
/// rearrangement, and leaves the rest of that row and the rows above it as
/// they were.
proof fn lemma_scan_row(s0: Seq<u8>, t: Trace, w: int, h: int, y: int, n: int)
    requires
        rearranges(s0, t, w, h),
        untouched(t, y * w, 0, w),
        0 <= n <= w,
        0 <= y < h - 1,
    ensures
        rearranges(s0, scan_row(t, w, y, n), w, h),
        untouched(scan_row(t, w, y, n), y * w, n, w),
    decreases n,
{
    if n > 0 {
        lemma_scan_row(s0, t, w, h, y, n - 1);
        lemma_visit(s0, scan_row(t, w, y, n - 1), w, h, n - 1, y);
    }
}

/// The trace at the beginning of a tick rearranges its grid, trivially.
proof fn lemma_start(s0: Seq<u8>, w: int, h: int)
    requires
        s0.len() == w * h,
    ensures
        rearranges(s0, start(s0), w, h),
        forall|i: int| 0 <= i < s0.len() ==> #[trigger] start(s0).origin[i] == i,
{
}

/// Visiting `r` rows from the bottom up keeps a rearrangement, and leaves the
/// rows above them as they were.
proof fn lemma_scan_rows(s0: Seq<u8>, w: int, h: int, r: int)
    requires
        s0.len() == w * h,
        0 <= w,
        0 <= r <= h - 1,
    ensures
        rearranges(s0, scan_rows(start(s0), w, h, r), w, h),
        untouched(scan_rows(start(s0), w, h, r), (h - 1 - r) * w, w, w),
    decreases r,
{
    lemma_start(s0, w, h);
    if r > 0 {
        let y = h - 1 - r;
        let t = scan_rows(start(s0), w, h, r - 1);
        lemma_scan_rows(s0, w, h, r - 1);
        assert((y + 1) * w == y * w + w) by (nonlinear_arith);
        assert(0 <= y * w) by (nonlinear_arith)
            requires
                0 <= y,
                0 <= w,
        ;
        assert(untouched(t, y * w, 0, w));
        lemma_scan_row(s0, t, w, h, y, w);
    }
}

/// One tick rearranges the grid.
proof fn lemma_step_rearranges(cells: Seq<u8>, w: int, h: int)
    requires
        cells.len() == w * h,
        0 <= w,
        0 <= h,
    ensures
        rearranges(cells, step_trace(cells, w, h), w, h),
{
    if h >= 1 {
        lemma_scan_rows(cells, w, h, h - 1);
    } else {
        lemma_start(cells, w, h);
    }
}

/// One tick neither creates nor destroys material: the grid keeps its size,
/// and every material occurs in it as often after the tick as before.
pub proof fn lemma_step_conserves(cells: Seq<u8>, w: int, h: int)
    requires
        cells.len() == w * h,
        0 <= w,
        0 <= h,
    ensures
        step(cells, w, h).len() == cells.len(),
        step(cells, w, h).to_multiset() == cells.to_multiset(),
        forall|m: u8| step(cells, w, h).to_multiset().count(m) == cells.to_multiset().count(m),
{
    lemma_step_rearranges(cells, w, h);
}

/// One tick moves contents and changes none: every cell of the grid after the
/// tick holds what stood at its origin before, and no two cells share an
/// origin.
pub proof fn lemma_step_permutes(cells: Seq<u8>, w: int, h: int)
    requires
        cells.len() == w * h,
        0 <= w,
        0 <= h,
    ensures
        step_origin(cells, w, h).len() == cells.len(),
        forall|i: int|
            0 <= i < cells.len() ==> {
                &&& 0 <= #[trigger] step_origin(cells, w, h)[i] < cells.len()
                &&& step(cells, w, h)[i] == cells[step_origin(cells, w, h)[i]]
            },
        forall|i: int, j: int|
            0 <= i < cells.len() && 0 <= j < cells.len() && i != j ==> #[trigger] step_origin(
                cells,
                w,
                h,
            )[i] != #[trigger] step_origin(cells, w, h)[j],
{
    lemma_step_rearranges(cells, w, h);
    let o = step_origin(cells, w, h);
    assert forall|i: int, j: int|
        0 <= i < cells.len() && 0 <= j < cells.len() && i != j implies #[trigger] o[i]
        != #[trigger] o[j] by {
        if i < j {
            assert(o[i] != o[j]);
        } else {
            assert(o[j] != o[i]);
        }
    }
}

/// No content falls more than one row in a tick: what stands in a cell after
/// the tick stood, before it, in the same row, in the row above, or further
/// down.
pub proof fn lemma_step_falls_one_row(cells: Seq<u8>, w: int, h: int)
    requires
        cells.len() == w * h,
        0 <= w,
        0 <= h,
    ensures
        forall|i: int|
            0 <= i < cells.len() ==> row_of(w, i) <= row_of(
                w,
                #[trigger] step_origin(cells, w, h)[i],
            ) + 1,
{
    lemma_step_rearranges(cells, w, h);
}

/// A particle is displaced at most once in a tick, and never across an edge:
/// a material other than air that has left its cell stands exactly one row
/// below it, in the same column or a neighbouring one.
pub proof fn lemma_step_keeps_columns(cells: Seq<u8>, w: int, h: int)
    requires
        cells.len() == w * h,
        0 <= w,
        0 <= h,
    ensures
        forall|i: int|
            0 <= i < cells.len() && step(cells, w, h)[i] != AIR && #[trigger] step_origin(
                cells,
                w,
                h,
            )[i] != i ==> {
                &&& row_of(w, i) == row_of(w, step_origin(cells, w, h)[i]) + 1
                &&& -1 <= col_of(w, i) - col_of(w, step_origin(cells, w, h)[i]) <= 1
            },
{
    lemma_step_rearranges(cells, w, h);
}

/// The cell `j` holds in `u` what it holds in `t`, from the same origin.
spec fn same_at(t: Trace, u: Trace, j: int) -> bool {
    u.cells[j] == t.cells[j] && u.origin[j] == t.origin[j]
}

/// While a row is visited, a cell that the scan has passed stays as it is,
/// and so does a cell of a lower row that holds something other than air.
proof fn lemma_row_settled(s0: Seq<u8>, w: int, h: int, y: int, n0: int, n: int, j: int)
    requires
        s0.len() == w * h,
        0 <= y < h - 1,
        0 <= n0 <= n <= w,
        0 <= j < s0.len(),
        j < y * w + n0 || (j >= y * w + w && scan_row(
            scan_rows(start(s0), w, h, h - 2 - y),
            w,
            y,
            n0,
        ).cells[j] != AIR),
    ensures
        same_at(
            scan_row(scan_rows(start(s0), w, h, h - 2 - y), w, y, n0),
            scan_row(scan_rows(start(s0), w, h, h - 2 - y), w, y, n),
            j,
        ),
    decreases n,
{
    if n > n0 {
        let t = scan_rows(start(s0), w, h, h - 2 - y);
        let a = scan_row(t, w, y, n - 1);
        lemma_row_settled(s0, w, h, y, n0, n - 1, j);
        lemma_scan_rows(s0, w, h, h - 2 - y);
        assert((y + 1) * w == y * w + w) by (nonlinear_arith);
        assert(0 <= y * w) by (nonlinear_arith)
            requires
                0 <= y,
                0 <= w,
        ;
        assert(untouched(t, y * w, 0, w));
        lemma_scan_row(s0, t, w, h, y, n - 1);
        lemma_destination(a.cells, w, h, n - 1, y);
    }
}

/// While the rows above are visited, a cell that holds something other than
/// air, in a row that the scan has passed or in the row below such a row,
/// stays as it is.
proof fn lemma_rows_settled(s0: Seq<u8>, w: int, h: int, r0: int, r: int, j: int)
    requires
        s0.len() == w * h,
        0 <= w,
        0 <= r0 <= r <= h - 1,
        (h - 1 - r0) * w <= j < s0.len(),
        scan_rows(start(s0), w, h, r0).cells[j] != AIR,
    ensures
        same_at(scan_rows(start(s0), w, h, r0), scan_rows(start(s0), w, h, r), j),
    decreases r,
{
    if r > r0 {
        let y = h - 1 - r;
        lemma_rows_settled(s0, w, h, r0, r - 1, j);
        assert((y + 1) * w <= (h - 1 - r0) * w) by (nonlinear_arith)
            requires
                y + 1 <= h - 1 - r0,
                0 <= w,
        ;
        assert((y + 1) * w == y * w + w) by (nonlinear_arith);
        lemma_row_settled(s0, w, h, y, 0, w, j);
    }
}

/// What rests on the bottom row stays: a cell of the last row that holds
/// something other than air holds the same after the tick, and nothing has
/// moved into it or out of it.
pub proof fn lemma_step_keeps_bottom_row(cells: Seq<u8>, w: int, h: int)
    requires
        cells.len() == w * h,
        0 <= w,
        0 <= h,
    ensures
        forall|i: int|
            0 <= i < cells.len() && row_of(w, i) == h - 1 && #[trigger] cells[i] != AIR ==> {
                &&& step_origin(cells, w, h)[i] == i
                &&& step(cells, w, h)[i] == cells[i]
            },
{
    let o = step_origin(cells, w, h);
    let s = step(cells, w, h);
    assert forall|i: int|
        0 <= i < cells.len() && row_of(w, i) == h - 1 && #[trigger] cells[i] != AIR implies o[i]
        == i && s[i] == cells[i] by {
        assert(w > 0 && h >= 1) by (nonlinear_arith)
            requires
                0 < w * h,
                0 <= w,
                0 <= h,
        ;
        lemma_fundamental_div_mod(i, w);
        lemma_mod_bound(i, w);
        assert(w * (i / w) == (h - 1) * w) by (nonlinear_arith)
            requires
                i / w == h - 1,
        ;
        lemma_rows_settled(cells, w, h, 0, h - 1, i);
    }
}

/// The order of preference among the three cells below a particle. Let the
/// cell in column `x` of row `y`, not the bottom row, hold a material that
/// falls, and take the grid as it is when the scan reaches that cell. The
/// particle is then the one that stood there when the tick began, and after
/// the tick it stands
/// - straight below, if that cell was air, whatever the diagonals held;
/// - down-right, if it spreads, the cell below was taken, and the cell
///   down-right exists and was air, whatever the cell down-left held;
/// - down-left, if it spreads, neither of those two was open, and the cell
///   down-left exists and was air;
/// - where it was, otherwise.
pub proof fn lemma_step_prefers_down_then_right(cells: Seq<u8>, w: int, h: int, x: int, y: int)
    requires
        cells.len() == w * h,
        0 <= x < w,
        0 <= y < h - 1,
        movement_of(cells[y * w + x]) != Movement::Immovable,
    ensures
        ({
            let i = y * w + x;
            let b = before_visit(cells, w, h, x, y).cells;
            let spreads = movement_of(cells[i]) == Movement::DiagonalFall;
            let goes = if b[i + w] == AIR {
                i + w
            } else if spreads && x < w - 1 && b[i + w + 1] == AIR {
                i + w + 1
            } else if spreads && x > 0 && b[i + w - 1] == AIR {
                i + w - 1
            } else {
                i
            };
            &&& b[i] == cells[i]
            &&& 0 <= goes < cells.len()
            &&& step_origin(cells, w, h)[goes] == i
            &&& step(cells, w, h)[goes] == cells[i]
        }),
{
    let i = y * w + x;
    let t = scan_rows(start(cells), w, h, h - 2 - y);
    let b = scan_row(t, w, y, x);
    let a = scan_row(t, w, y, x + 1);
    let d = destination(b.cells, w, x, y);
    lemma_scan_rows(cells, w, h, h - 2 - y);
    assert((y + 1) * w == y * w + w) by (nonlinear_arith);
    assert(0 <= y * w) by (nonlinear_arith)
        requires
            0 <= y,
            0 <= w,
    ;
    assert(untouched(t, y * w, 0, w));
    lemma_scan_row(cells, t, w, h, y, x);
    lemma_destination(b.cells, w, h, x, y);
    assert(b.origin[i] == i);
    assert(b.cells[i] == cells[i]);
    assert(a == visit(b, w, x, y));
    assert(a.cells[d] == cells[i]);
    assert(a.origin[d] == i);
    lemma_row_settled(cells, w, h, y, x + 1, w, d);
    let e = scan_rows(start(cells), w, h, h - 1 - y);
    assert(e == scan_row(t, w, y, w));
    lemma_rows_settled(cells, w, h, h - 1 - y, h - 1, d);
}

/// The trace in which a cell of row `y` is visited rearranges the grid, and
/// the cells of that row from column `n` on, with all rows above, are as
/// they were when the tick began.
proof fn lemma_partial(s0: Seq<u8>, w: int, h: int, y: int, n: int)
    requires
        s0.len() == w * h,
        0 <= y < h - 1,
        0 <= n <= w,
    ensures
        rearranges(s0, before_visit(s0, w, h, n, y), w, h),
        untouched(before_visit(s0, w, h, n, y), y * w, n, w),
        0 <= y * w,
        (y + 1) * w == y * w + w,
        y * w + w + w <= s0.len(),
{
    let t = scan_rows(start(s0), w, h, h - 2 - y);
    assert((y + 2) * w <= h * w) by (nonlinear_arith)
        requires
            y + 2 <= h,
            0 <= w,
    ;
    assert((y + 2) * w == y * w + w + w) by (nonlinear_arith);
    lemma_scan_rows(s0, w, h, h - 2 - y);
    assert((y + 1) * w == y * w + w) by (nonlinear_arith);
    assert(0 <= y * w) by (nonlinear_arith)
        requires
            0 <= y,
            0 <= w,
    ;
    assert((y + 1) * w <= h * w) by (nonlinear_arith)
        requires
            y + 1 <= h,
            0 <= w,
    ;
    assert(h * w == w * h) by (nonlinear_arith);
    assert(untouched(t, y * w, 0, w));
    lemma_scan_row(s0, t, w, h, y, n);
}

/// While row `y` is visited, a cell of that row or of a row above it that
/// holds air goes on holding air.
proof fn lemma_air_kept_in_row(s0: Seq<u8>, w: int, h: int, y: int, n: int, j: int)
    requires
        s0.len() == w * h,
        0 <= y < h - 1,
        0 <= n <= w,
        0 <= j < y * w + w,
        before_visit(s0, w, h, 0, y).cells[j] == AIR,
    ensures
        before_visit(s0, w, h, n, y).cells[j] == AIR,
    decreases n,
{
    if n > 0 {
        lemma_air_kept_in_row(s0, w, h, y, n - 1, j);
        lemma_partial(s0, w, h, y, n - 1);
        lemma_destination(before_visit(s0, w, h, n - 1, y).cells, w, h, n - 1, y);
    }
}

/// While the rows below row `y` are visited, a cell of row `y + 1` or of a
/// row above it that holds air goes on holding air.
proof fn lemma_air_kept_below(s0: Seq<u8>, w: int, h: int, r: int, j: int)
    requires
        s0.len() == w * h,
        0 <= w,
        0 <= r <= h - 1,
        0 <= j < (h - r) * w,
        j < s0.len(),
        s0[j] == AIR,
    ensures
        scan_rows(start(s0), w, h, r).cells[j] == AIR,
    decreases r,
{
    if r > 0 {
        let y = h - 1 - r;
        assert((h - r) * w <= (h - r + 1) * w) by (nonlinear_arith)
            requires
                0 <= w,
        ;
        assert((h - r) * w == y * w + w) by (nonlinear_arith)
            requires
                y == h - 1 - r,
        ;
        lemma_air_kept_below(s0, w, h, r - 1, j);
        lemma_air_kept_in_row(s0, w, h, y, w, j);
    }
}

/// While the first `n` cells of row `y` are visited, the cells of the next
/// row beyond column `n`, and all cells further down, stay as they are.
proof fn lemma_row_ahead(s0: Seq<u8>, w: int, h: int, y: int, n: int, j: int)
    requires
        s0.len() == w * h,
        0 <= y < h - 1,
        0 <= n <= w,
        y * w + w + n < j < s0.len(),
    ensures
        same_at(before_visit(s0, w, h, 0, y), before_visit(s0, w, h, n, y), j),
    decreases n,
{
    if n > 0 {
        lemma_row_ahead(s0, w, h, y, n - 1, j);
        lemma_partial(s0, w, h, y, n - 1);
        lemma_destination(before_visit(s0, w, h, n - 1, y).cells, w, h, n - 1, y);
    }
}

/// The cell below column `x` of row `y` is, when the scan reaches that
/// column, as it was when the scan reached the row, unless the left
/// neighbour is of a material that spreads.
proof fn lemma_row_below_kept(s0: Seq<u8>, w: int, h: int, x: int, y: int)
    requires
        s0.len() == w * h,
        0 <= y < h - 1,
        0 <= x < w,
        x == 0 || movement_of(s0[y * w + x - 1]) != Movement::DiagonalFall,
    ensures
        same_at(before_visit(s0, w, h, 0, y), before_visit(s0, w, h, x, y), y * w + w + x),
{
    lemma_partial(s0, w, h, y, x);
    if x > 0 {
        let a = before_visit(s0, w, h, x - 1, y);
        lemma_row_ahead(s0, w, h, y, x - 1, y * w + w + x);
        lemma_partial(s0, w, h, y, x - 1);
        lemma_destination(a.cells, w, h, x - 1, y);
        assert(a.origin[y * w + x - 1] == y * w + x - 1);
        assert(a.cells[y * w + x - 1] == s0[y * w + x - 1]);
    }
}

/// While row `y` is visited, a cell that began the tick with an immovable
/// material other than air holds it still, from its own origin.
proof fn lemma_obstacle_in_row(s0: Seq<u8>, w: int, h: int, y: int, n: int, j: int)
    requires
        s0.len() == w * h,
        0 <= y < h - 1,
        0 <= n <= w,
        0 <= j < s0.len(),
        s0[j] != AIR,
        movement_of(s0[j]) == Movement::Immovable,
    ensures
        before_visit(s0, w, h, n, y).cells[j] == s0[j],
        before_visit(s0, w, h, n, y).origin[j] == j,
    decreases h - y, n,
{
    if n > 0 {
        lemma_obstacle_in_row(s0, w, h, y, n - 1, j);
        lemma_partial(s0, w, h, y, n - 1);
        lemma_destination(before_visit(s0, w, h, n - 1, y).cells, w, h, n - 1, y);
    } else if y < h - 2 {
        lemma_obstacle_in_row(s0, w, h, y + 1, w, j);
        assert(before_visit(s0, w, h, 0, y) == before_visit(s0, w, h, w, y + 1));
    }
}

/// What cannot move stays, and nothing takes its place: a cell that holds an
/// immovable material other than air holds it after the tick, and it is the
/// same particle.
pub proof fn lemma_step_keeps_obstacles(cells: Seq<u8>, w: int, h: int)
    requires
        cells.len() == w * h,
        0 <= w,
        0 <= h,
    ensures
        forall|j: int|
            0 <= j < cells.len() && #[trigger] cells[j] != AIR && movement_of(cells[j])
                == Movement::Immovable ==> {
                &&& step(cells, w, h)[j] == cells[j]
                &&& step_origin(cells, w, h)[j] == j
            },
{
    let s = step(cells, w, h);
    let o = step_origin(cells, w, h);
    assert forall|j: int|
        0 <= j < cells.len() && #[trigger] cells[j] != AIR && movement_of(cells[j])
            == Movement::Immovable implies s[j] == cells[j] && o[j] == j by {
        if h >= 2 {
            lemma_obstacle_in_row(cells, w, h, 0, w, j);
            assert(step_trace(cells, w, h) == before_visit(cells, w, h, w, 0));
        }
    }
}

/// A grid with fewer than two rows has no row to visit: a tick leaves it as
/// it is.
pub proof fn lemma_step_of_flat_grid(cells: Seq<u8>, w: int, h: int)
    requires
        h < 2,
    ensures
        step(cells, w, h) == cells,
{
}

/// A particle over air falls straight down. Let the cell in column `x` of
/// row `y` hold a material that falls, and the cell below it air, when the
/// tick begins; and let the left neighbour, if there is one, not be of a
/// material that spreads, for such a neighbour is visited first and may take
/// the cell below. Then after the tick the particle stands in the cell
/// below, whatever the cells down-right and down-left held.
pub proof fn lemma_step_falls_straight(cells: Seq<u8>, w: int, h: int, x: int, y: int)
    requires
        cells.len() == w * h,
        0 <= x < w,
        0 <= y < h - 1,
        movement_of(cells[y * w + x]) != Movement::Immovable,
        cells[y * w + x + w] == AIR,
        x == 0 || movement_of(cells[y * w + x - 1]) != Movement::DiagonalFall,
    ensures
        step_origin(cells, w, h)[y * w + x + w] == y * w + x,
        step(cells, w, h)[y * w + x + w] == cells[y * w + x],
{
    let j = y * w + x + w;
    lemma_partial(cells, w, h, y, x);
    assert((y + 2) * w == y * w + w + w) by (nonlinear_arith);
    lemma_air_kept_below(cells, w, h, h - 2 - y, j);
    lemma_row_below_kept(cells, w, h, x, y);
    lemma_step_prefers_down_then_right(cells, w, h, x, y);
}

/// A particle that spreads and is blocked below goes down-right before
/// down-left. Let the cell in column `x` of row `y` hold a material that
/// spreads when the tick begins, the cell below it something that stays
/// where it is during the tick (an immovable material other than air, or
/// anything but air on the bottom row), and the cell down-right exist and
/// hold air. Then after the tick the particle stands down-right, whatever
/// the cell down-left held.
pub proof fn lemma_step_spreads_right_first(cells: Seq<u8>, w: int, h: int, x: int, y: int)
    requires
        cells.len() == w * h,
        0 <= x < w - 1,
        0 <= y < h - 1,
        movement_of(cells[y * w + x]) == Movement::DiagonalFall,
        cells[y * w + x + w] != AIR,
        y + 1 == h - 1 || movement_of(cells[y * w + x + w]) == Movement::Immovable,
        cells[y * w + x + w + 1] == AIR,
    ensures
        step_origin(cells, w, h)[y * w + x + w + 1] == y * w + x,
        step(cells, w, h)[y * w + x + w + 1] == cells[y * w + x],
{
    let j = y * w + x + w;
    lemma_partial(cells, w, h, y, x);
    assert((y + 2) * w == y * w + w + w) by (nonlinear_arith);
    assert((y + 2) * w <= h * w) by (nonlinear_arith)
        requires
            y + 2 <= h,
            0 <= w,
    ;
    assert(h * w == w * h) by (nonlinear_arith);
    if movement_of(cells[j]) == Movement::Immovable {
        lemma_obstacle_in_row(cells, w, h, y, x, j);
    } else {
        assert(before_visit(cells, w, h, 0, y) == start(cells));
        lemma_row_settled(cells, w, h, y, 0, x, j);
    }
    lemma_air_kept_below(cells, w, h, h - 2 - y, j + 1);
    lemma_row_ahead(cells, w, h, y, x, j + 1);
    lemma_step_prefers_down_then_right(cells, w, h, x, y);
}

} // verus!
