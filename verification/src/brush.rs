//! The brush: from a pointer position to a grid cell, and from a grid cell
//! and a radius to the disc of cells that a stamp overwrites.

use vstd::prelude::*;
use vstd::arithmetic::div_mod::{
    lemma_fundamental_div_mod, lemma_fundamental_div_mod_converse, lemma_mod_bound,
};
use crate::geometry::{col_of, lemma_cell_of_index, lemma_index_of_cell, row_of};

verus! {

/// The cell in column `x` of row `y` lies within `radius` of the cell in
/// column `cx` of row `cy`.
pub open spec fn in_brush(cx: int, cy: int, radius: int, x: int, y: int) -> bool {
    (x - cx) * (x - cx) + (y - cy) * (y - cy) <= radius * radius
}

/// The grid `cells` of width `w` after a stamp of `material` around column
/// `cx` of row `cy`: every cell within `radius` holds `material`, whatever it
/// held before, and every other cell is as it was.
pub open spec fn stamped(cells: Seq<u8>, w: int, cx: int, cy: int, radius: int, material: u8) -> Seq<
    u8,
> {
    Seq::new(
        cells.len(),
        |i: int|
            if in_brush(cx, cy, radius, col_of(w, i), row_of(w, i)) {
                material
            } else {
                cells[i]
            },
    )
}

/// The grid coordinate under a pointer: the pointer's position `cursor` in a
/// window `window` wide, scaled to a grid of `grid` cells and rounded down.
pub open spec fn grid_coordinate(cursor: int, window: int, grid: int) -> int {
    (cursor * grid) / window
}

/// A cell within the brush is at most `radius` columns and `radius` rows
/// away from its centre.
proof fn lemma_brush_box(cx: int, cy: int, radius: int, x: int, y: int)
    requires
        0 <= radius,
        in_brush(cx, cy, radius, x, y),
    ensures
        cx - radius <= x <= cx + radius,
        cy - radius <= y <= cy + radius,
{
    let dx = x - cx;
    let dy = y - cy;
    assert(dx * dx >= 0) by (nonlinear_arith);
    assert(dy * dy >= 0) by (nonlinear_arith);
    assert(-radius <= dx <= radius) by (nonlinear_arith)
        requires
            dx * dx <= radius * radius,
            0 <= radius,
    ;
    assert(-radius <= dy <= radius) by (nonlinear_arith)
        requires
            dy * dy <= radius * radius,
            0 <= radius,
    ;
}

/// Rounding a negative quotient down: for a positive `n` and a positive `d`,
/// `-n / d` lies one below the negation of `(n - 1) / d`.
proof fn lemma_floor_of_negative(n: int, d: int)
    requires
        0 < n,
        0 < d,
    ensures
        (-n) / d == -((n - 1) / d) - 1,
        0 <= (n - 1) / d <= n - 1,
{
    let q = (n - 1) / d;
    let r = (n - 1) % d;
    lemma_fundamental_div_mod(n - 1, d);
    lemma_mod_bound(n - 1, d);
    assert(-n == (-q - 1) * d + (d - 1 - r)) by (nonlinear_arith)
        requires
            n - 1 == d * q + r,
    ;
    lemma_fundamental_div_mod_converse(-n, d, -q - 1, d - 1 - r);
    assert(0 <= q <= n - 1) by (nonlinear_arith)
        requires
            0 < d,
            0 <= n - 1,
            n - 1 == d * q + r,
            0 <= r < d,
    ;
}

/// The grid coordinate under the pointer position `cursor`, in whole pixels,
/// in a window of `window` pixels over a grid of `grid` cells.
pub fn cursor_to_grid(cursor: i32, window: u32, grid: u32) -> (cell: i64)
    requires
        window > 0,
    ensures
        cell == grid_coordinate(cursor as int, window as int, grid as int),
{
    let d: i64 = window as i64;
    if cursor >= 0 {
        assert(cursor * grid <= 0x7fff_ffff * 0xffff_ffff) by (nonlinear_arith)
            requires
                0 <= cursor <= 0x7fff_ffff,
                0 <= grid <= 0xffff_ffff,
        ;
        assert(0 <= cursor * grid) by (nonlinear_arith)
            requires
                0 <= cursor,
                0 <= grid,
        ;
        let n: i64 = cursor as i64 * grid as i64;
        n / d
    } else {
        let c: i64 = -(cursor as i64);
        assert(c * grid <= 0x8000_0000 * 0xffff_ffff) by (nonlinear_arith)
            requires
                0 < c <= 0x8000_0000,
                0 <= grid <= 0xffff_ffff,
        ;
        assert(0 <= c * grid) by (nonlinear_arith)
            requires
                0 <= c,
                0 <= grid,
        ;
        let n: i64 = c * grid as i64;
        assert(cursor * grid == -(n as int)) by (nonlinear_arith)
            requires
                c == -cursor,
                n == c * grid,
        ;
        if n == 0 {
            0
        } else {
            proof {
                lemma_floor_of_negative(n as int, d as int);
            }
            -((n - 1) / d) - 1
        }
    }
}

/// Stamps `material` into the row-major grid of `width` by `height` cells:
/// every cell within `radius` of column `cx` of row `cy` is overwritten,
/// every other cell is left as it is. The centre may lie outside the grid;
/// the part of the disc that lies outside is dropped.
pub fn stamp_circle(
    grid: &mut [u8],
    width: u32,
    height: u32,
    cx: i64,
    cy: i64,
    radius: u32,
    material: u8,
)
    requires
        old(grid)@.len() == width * height,
        width > 0,
    ensures
        final(grid)@ == stamped(
            old(grid)@,
            width as int,
            cx as int,
            cy as int,
            radius as int,
            material,
        ),
{
    let n: usize = grid.len();
    let w: i64 = width as i64;
    let h: i64 = height as i64;
    let r: i64 = radius as i64;
    let ghost before = grid@;
    let ghost goal = stamped(before, w as int, cx as int, cy as int, r as int, material);
    if cx < -r || cx > w - 1 + r || cy < -r || cy > h - 1 + r {
        proof {
            assert forall|i: int| 0 <= i < before.len() implies grid@[i] == #[trigger] goal[i] by {
                lemma_cell_of_index(w as int, h as int, i);
                if in_brush(cx as int, cy as int, r as int, col_of(w as int, i), row_of(w as int, i)) {
                    lemma_brush_box(cx as int, cy as int, r as int, col_of(w as int, i), row_of(w as int, i));
                }
            }
            assert(grid@ =~= goal);
        }
        return ;
    }
    let x_lo: i64 = if cx - r > 0 { cx - r } else { 0 };
    let x_hi: i64 = if cx + r < w - 1 { cx + r } else { w - 1 };
    let y_lo: i64 = if cy - r > 0 { cy - r } else { 0 };
    let y_hi: i64 = if cy + r < h - 1 { cy + r } else { h - 1 };
    assert(radius * radius <= 0xffff_ffff * 0xffff_ffff) by (nonlinear_arith)
        requires
            0 <= radius <= 0xffff_ffff,
    ;
    let r2: u64 = radius as u64 * radius as u64;
    let mut y: i64 = y_lo;
    proof {
        assert forall|i: int| 0 <= i < n implies #[trigger] grid@[i] == (if in_brush(
            cx as int,
            cy as int,
            r as int,
            col_of(w as int, i),
            row_of(w as int, i),
        ) && row_of(w as int, i) < y {
            material
        } else {
            before[i]
        }) by {
            lemma_cell_of_index(w as int, h as int, i);
            if in_brush(cx as int, cy as int, r as int, col_of(w as int, i), row_of(w as int, i)) {
                lemma_brush_box(cx as int, cy as int, r as int, col_of(w as int, i), row_of(w as int, i));
            }
        }
    }
    while y <= y_hi
        invariant
            w == width,
            h == height,
            r == radius,
            w > 0,
            r2 == r * r,
            grid@.len() == w * h,
            grid@.len() == n,
            before.len() == n,
            0 <= x_lo,
            x_hi <= w - 1,
            x_lo == (if cx - r > 0 { cx - r } else { 0 }),
            x_hi == (if cx + r < w - 1 { cx + r } else { w - 1 }),
            -r <= cx <= w - 1 + r,
            0 <= y_lo <= y <= y_hi + 1 <= h,
            y_lo == (if cy - r > 0 { cy - r } else { 0 }),
            y_hi == (if cy + r < h - 1 { cy + r } else { h - 1 }),
            -r <= cy <= h - 1 + r,
            forall|i: int|
                0 <= i < n ==> #[trigger] grid@[i] == (if in_brush(
                    cx as int,
                    cy as int,
                    r as int,
                    col_of(w as int, i),
                    row_of(w as int, i),
                ) && row_of(w as int, i) < y {
                    material
                } else {
                    before[i]
                }),
        decreases y_hi + 1 - y,
    {
        let dy: u64 = if y >= cy { (y - cy) as u64 } else { (cy - y) as u64 };
        assert(dy * dy <= 0xffff_ffff * 0xffff_ffff) by (nonlinear_arith)
            requires
                0 <= dy <= 0xffff_ffff,
        ;
        let dy2: u64 = dy * dy;
        assert(dy2 == (y - cy) * (y - cy)) by (nonlinear_arith)
            requires
                dy2 == dy * dy,
                dy == y - cy || dy == cy - y,
        ;
        let mut x: i64 = x_lo;
        proof {
            assert forall|i: int| 0 <= i < n implies #[trigger] grid@[i] == (if in_brush(
                cx as int,
                cy as int,
                r as int,
                col_of(w as int, i),
                row_of(w as int, i),
            ) && (row_of(w as int, i) < y || (row_of(w as int, i) == y && col_of(w as int, i) < x)) {
                material
            } else {
                before[i]
            }) by {
                lemma_cell_of_index(w as int, h as int, i);
                if in_brush(cx as int, cy as int, r as int, col_of(w as int, i), row_of(w as int, i)) {
                    lemma_brush_box(cx as int, cy as int, r as int, col_of(w as int, i), row_of(w as int, i));
                }
            }
        }
        while x <= x_hi
            invariant
                w == width,
                h == height,
                r == radius,
                w > 0,
                r2 == r * r,
                dy2 == (y - cy) * (y - cy),
                grid@.len() == w * h,
                grid@.len() == n,
                before.len() == n,
                0 <= x_lo <= x <= x_hi + 1 <= w,
                -r <= cx <= w - 1 + r,
                cx - r <= x_lo,
                x_hi <= cx + r,
                0 <= y < h,
                forall|i: int|
                    0 <= i < n ==> #[trigger] grid@[i] == (if in_brush(
                        cx as int,
                        cy as int,
                        r as int,
                        col_of(w as int, i),
                        row_of(w as int, i),
                    ) && (row_of(w as int, i) < y || (row_of(w as int, i) == y && col_of(w as int, i) < x)) {
                        material
                    } else {
                        before[i]
                    }),
            decreases x_hi + 1 - x,
        {
            let dx: u64 = if x >= cx { (x - cx) as u64 } else { (cx - x) as u64 };
            assert(dx * dx <= 0xffff_ffff * 0xffff_ffff) by (nonlinear_arith)
                requires
                    0 <= dx <= 0xffff_ffff,
            ;
            let dx2: u64 = dx * dx;
            assert(dx2 == (x - cx) * (x - cx)) by (nonlinear_arith)
                requires
                    dx2 == dx * dx,
                    dx == x - cx || dx == cx - x,
            ;
            let ghost row = grid@;
            proof {
                lemma_index_of_cell(w as int, h as int, x as int, y as int);
            }
            let inside: bool = dx2 <= r2 && dy2 <= r2 - dx2;
            assert(inside == in_brush(cx as int, cy as int, r as int, x as int, y as int));
            if inside {
                let idx: usize = y as usize * width as usize + x as usize;
                grid[idx] = material;
            }
            proof {
                assert forall|i: int| 0 <= i < n implies #[trigger] grid@[i] == (if in_brush(
                    cx as int,
                    cy as int,
                    r as int,
                    col_of(w as int, i),
                    row_of(w as int, i),
                ) && (row_of(w as int, i) < y || (row_of(w as int, i) == y && col_of(w as int, i) < x + 1)) {
                    material
                } else {
                    before[i]
                }) by {
                    lemma_cell_of_index(w as int, h as int, i);
                    assert(row[i] == (if in_brush(
                        cx as int,
                        cy as int,
                        r as int,
                        col_of(w as int, i),
                        row_of(w as int, i),
                    ) && (row_of(w as int, i) < y || (row_of(w as int, i) == y && col_of(w as int, i) < x)) {
                        material
                    } else {
                        before[i]
                    }));
                }
            }
            x = x + 1;
        }
        proof {
            assert forall|i: int| 0 <= i < n implies #[trigger] grid@[i] == (if in_brush(
                cx as int,
                cy as int,
                r as int,
                col_of(w as int, i),
                row_of(w as int, i),
            ) && row_of(w as int, i) < y + 1 {
                material
            } else {
                before[i]
            }) by {
                lemma_cell_of_index(w as int, h as int, i);
                if in_brush(cx as int, cy as int, r as int, col_of(w as int, i), row_of(w as int, i)) {
                    lemma_brush_box(cx as int, cy as int, r as int, col_of(w as int, i), row_of(w as int, i));
                }
            }
        }
        y = y + 1;
    }
    proof {
        assert forall|i: int| 0 <= i < n implies grid@[i] == #[trigger] goal[i] by {
            lemma_cell_of_index(w as int, h as int, i);
            if in_brush(cx as int, cy as int, r as int, col_of(w as int, i), row_of(w as int, i)) {
                lemma_brush_box(cx as int, cy as int, r as int, col_of(w as int, i), row_of(w as int, i));
            }
        }
        assert(grid@ =~= goal);
    }
}

} // verus!
