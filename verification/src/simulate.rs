//! The update engine: one tick of gravity over a row-major grid of material
//! bytes. Rows are visited from the one above the bottom row up to the top
//! row, each row from left to right, and every visited particle is displaced
//! at most once.

use vstd::prelude::*;
use crate::geometry::lemma_index_of_cell;
use crate::material::{movement_class, movement_of, Movement, AIR};

verus! {

/// `s` with the items at `i` and `j` exchanged.
pub open spec fn exchange<A>(s: Seq<A>, i: int, j: int) -> Seq<A> {
    s.update(i, s[j]).update(j, s[i])
}

/// The index to which the content of column `x` in row `y` goes when that
/// cell is visited in the grid `s` of width `w`: straight down if the cell
/// below is air; else, for a material that spreads, down-right if that cell
/// exists and is air, else down-left if that cell exists and is air; else the
/// cell's own index.
pub open spec fn destination(s: Seq<u8>, w: int, x: int, y: int) -> int {
    let i = y * w + x;
    let m = movement_of(s[i]);
    if m == Movement::Immovable {
        i
    } else if s[i + w] == AIR {
        i + w
    } else if m == Movement::DiagonalFall && x < w - 1 && s[i + w + 1] == AIR {
        i + w + 1
    } else if m == Movement::DiagonalFall && x > 0 && s[i + w - 1] == AIR {
        i + w - 1
    } else {
        i
    }
}

/// A grid together with, for each cell, the index at which its content stood
/// when the tick began.
pub struct Trace {
    pub cells: Seq<u8>,
    pub origin: Seq<int>,
}

/// The trace at the beginning of a tick: every content stands where it began.
pub open spec fn start(cells: Seq<u8>) -> Trace {
    Trace { cells, origin: Seq::new(cells.len(), |i: int| i) }
}

/// The trace after the cell in column `x` of row `y` has been visited.
pub open spec fn visit(t: Trace, w: int, x: int, y: int) -> Trace {
    let i = y * w + x;
    let d = destination(t.cells, w, x, y);
    Trace { cells: exchange(t.cells, i, d), origin: exchange(t.origin, i, d) }
}

/// The trace after the first `n` columns of row `y` have been visited, from
/// left to right.
pub open spec fn scan_row(t: Trace, w: int, y: int, n: int) -> Trace
    decreases n,
{
    if n <= 0 {
        t
    } else {
        visit(scan_row(t, w, y, n - 1), w, n - 1, y)
    }
}

/// The trace after `r` whole rows have been visited, beginning with the row
/// above the bottom row and going up.
pub open spec fn scan_rows(t: Trace, w: int, h: int, r: int) -> Trace
    decreases r,
{
    if r <= 0 {
        t
    } else {
        scan_row(scan_rows(t, w, h, r - 1), w, h - 1 - r, w)
    }
}

/// The trace of one whole tick on a grid of width `w` and height `h`.
pub open spec fn step_trace(cells: Seq<u8>, w: int, h: int) -> Trace {
    scan_rows(start(cells), w, h, h - 1)
}

/// The grid after one tick.
pub open spec fn step(cells: Seq<u8>, w: int, h: int) -> Seq<u8> {
    step_trace(cells, w, h).cells
}

/// For each cell of the grid after one tick, the index at which its content
/// stood before the tick.
pub open spec fn step_origin(cells: Seq<u8>, w: int, h: int) -> Seq<int> {
    step_trace(cells, w, h).origin
}

/// The trace in which the cell in column `x` of row `y` is visited during a
/// tick: all rows below `y` but the bottom row, and the columns left of `x`
/// in row `y`, have been visited.
pub open spec fn before_visit(cells: Seq<u8>, w: int, h: int, x: int, y: int) -> Trace {
    scan_row(scan_rows(start(cells), w, h, h - 2 - y), w, y, x)
}

/// Advances the grid by one tick, in place: every particle that can fall is
/// displaced once, by the rule of `destination`. A grid of height below two
/// is left as it is.
pub fn simulate_particles(particle_grid: &mut [u8], height: u32, width: u32) -> (updated: &[u8])
    requires
        old(particle_grid)@.len() == width * height,
    ensures
        final(particle_grid)@ == step(old(particle_grid)@, width as int, height as int),
        updated@ == step(old(particle_grid)@, width as int, height as int),
{
    if height < 2 {
        return particle_grid;
    }
    let w: usize = width as usize;
    let h: usize = height as usize;
    let n: usize = particle_grid.len();
    let ghost init = start(particle_grid@);
    let ghost wi = width as int;
    let ghost hi = height as int;
    let mut r: usize = 0;
    while r < h - 1
        invariant
            wi == width,
            hi == height,
            w == width,
            h == height,
            h >= 2,
            r <= h - 1,
            particle_grid@.len() == wi * hi,
            particle_grid@.len() == n,
            particle_grid@ == scan_rows(init, wi, hi, r as int).cells,
        decreases h - 1 - r,
    {
        let y: usize = h - 2 - r;
        let ghost row_start = scan_rows(init, wi, hi, r as int);
        let mut x: usize = 0;
        while x < w
            invariant
                wi == width,
                hi == height,
                w == width,
                h == height,
                y == h - 2 - r,
                r < h - 1,
                x <= w,
                particle_grid@.len() == wi * hi,
                particle_grid@.len() == n,
                particle_grid@ == scan_row(row_start, wi, y as int, x as int).cells,
            decreases w - x,
        {
            proof {
                lemma_index_of_cell(wi, hi, x as int, y as int + 1);
                lemma_index_of_cell(wi, hi, x as int, y as int);
                assert((y as int + 1) * wi == y as int * wi + wi) by (nonlinear_arith);
                assert(y * w == (y as int) * wi);
                assert(y * w + x + w < particle_grid@.len());
                if x < w - 1 {
                    lemma_index_of_cell(wi, hi, x as int + 1, y as int + 1);
                }
            }
            let ghost before = scan_row(row_start, wi, y as int, x as int);
            let idx: usize = y * w + x;
            let below: usize = idx + w;
            let kind = particle_grid[idx];
            let class = movement_class(kind);
            let mut target: usize = idx;
            if class != Movement::Immovable {
                if particle_grid[below] == AIR {
                    target = below;
                } else if class == Movement::DiagonalFall {
                    if x < w - 1 && particle_grid[below + 1] == AIR {
                        target = below + 1;
                    } else if x > 0 && particle_grid[below - 1] == AIR {
                        target = below - 1;
                    }
                }
            }
            assert(target == destination(before.cells, wi, x as int, y as int));
            if target != idx {
                particle_grid[idx] = AIR;
                particle_grid[target] = kind;
            }
            assert(particle_grid@ =~= exchange(before.cells, idx as int, target as int));
            x = x + 1;
        }
        r = r + 1;
    }
    particle_grid
}

} // verus!
