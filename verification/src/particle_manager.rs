//! The grid store with its brush: the cells of the simulation, bounds-checked
//! access to them, the palette of paintable materials with the current
//! selection, and the circular brush that paints it.

use vstd::prelude::*;
use crate::brush::{cursor_to_grid, grid_coordinate, stamp_circle, stamped};
use crate::geometry::lemma_index_of_cell;
use crate::material::{id_of, Particle, AIR, WATER};
use crate::motion::{lemma_step_conserves, lemma_step_permutes};
use crate::simulate::{simulate_particles, step, step_origin};

verus! {

/// The radius of the brush, in cells.
pub const RADIUS_ADD_PARTICLES: u32 = 2;

/// Why a grid could not be made.
#[derive(Clone, Copy, PartialEq, Eq, Debug, Structural)]
pub enum GridError {
    /// The width or the height is zero.
    DegenerateDimensions,
    /// The grid would have more cells than a vector can hold.
    TooLarge,
    /// The palette holds no material.
    EmptyPalette,
}

/// A grid of material bytes in row-major order, the origin at the top left
/// and `y` growing downwards, with the palette of paintable materials and the
/// one that is selected.
pub struct ParticleManager {
    particle_grid: Vec<u8>,
    width: u32,
    height: u32,
    palette: Vec<Particle>,
    selected: usize,
}

/// The palette of a grid made by `ParticleManager::new`.
pub open spec fn default_palette() -> Seq<Particle> {
    seq![Particle::Air, Particle::Sand, Particle::Stone]
}

/// The position after `i` in a cycle of `n` positions.
pub open spec fn next_index(i: int, n: int) -> int {
    if i + 1 >= n {
        0
    } else {
        i + 1
    }
}

/// The position before `i` in a cycle of `n` positions.
pub open spec fn previous_index(i: int, n: int) -> int {
    if i <= 0 {
        n - 1
    } else {
        i - 1
    }
}

/// The position reached from `i` by `k` steps forward in a cycle of `n`.
pub open spec fn advance_index(i: int, n: int, k: nat) -> int
    decreases k,
{
    if k == 0 {
        i
    } else {
        next_index(advance_index(i, n, (k - 1) as nat), n)
    }
}

/// One step back undoes one step forward, and one step forward undoes one
/// step back.
pub proof fn lemma_cycle_inverse(i: int, n: int)
    requires
        0 <= i < n,
    ensures
        0 <= next_index(i, n) < n,
        0 <= previous_index(i, n) < n,
        previous_index(next_index(i, n), n) == i,
        next_index(previous_index(i, n), n) == i,
{
}

/// Forward steps add up modulo the length of the cycle.
pub proof fn lemma_cycle_sum(i: int, n: int, k: nat)
    requires
        0 <= i < n,
    ensures
        advance_index(i, n, k) == (i + k) % n,
    decreases k,
{
    if k > 0 {
        lemma_cycle_sum(i, n, (k - 1) as nat);
        let a = (i + k - 1) % n;
        vstd::arithmetic::div_mod::lemma_mod_bound(i + k - 1, n);
        vstd::arithmetic::div_mod::lemma_fundamental_div_mod(i + k - 1, n);
        let q = (i + k - 1) / n;
        if a + 1 >= n {
            assert(i + k == (q + 1) * n + 0) by (nonlinear_arith)
                requires
                    i + k - 1 == n * q + a,
                    a + 1 == n,
            ;
            vstd::arithmetic::div_mod::lemma_fundamental_div_mod_converse(i + k, n, q + 1, 0);
        } else {
            assert(i + k == q * n + (a + 1)) by (nonlinear_arith)
                requires
                    i + k - 1 == n * q + a,
            ;
            vstd::arithmetic::div_mod::lemma_fundamental_div_mod_converse(i + k, n, q, a + 1);
        }
    } else {
        vstd::arithmetic::div_mod::lemma_small_mod(i as nat, n as nat);
    }
}

/// As many forward steps as the cycle has positions lead back to the start.
pub proof fn lemma_cycle_wraps(i: int, n: int)
    requires
        0 <= i < n,
    ensures
        advance_index(i, n, n as nat) == i,
{
    lemma_cycle_sum(i, n, n as nat);
    vstd::arithmetic::div_mod::lemma_fundamental_div_mod_converse(i + n, n, 1, i);
}

impl ParticleManager {
    /// The cells, row by row.
    pub closed spec fn cells(&self) -> Seq<u8> {
        self.particle_grid@
    }

    /// The number of columns.
    pub closed spec fn spec_width(&self) -> u32 {
        self.width
    }

    /// The number of rows.
    pub closed spec fn spec_height(&self) -> u32 {
        self.height
    }

    /// The paintable materials, in the order in which the selection cycles.
    pub closed spec fn palette(&self) -> Seq<Particle> {
        self.palette@
    }

    /// The position of the selected material in the palette.
    pub closed spec fn selected_index(&self) -> int {
        self.selected as int
    }

    /// The selected material.
    pub open spec fn selection(&self) -> Particle {
        self.palette()[self.selected_index()]
    }

    /// The cell in column `x` of row `y`.
    pub open spec fn cell(&self, x: int, y: int) -> u8 {
        self.cells()[y * self.spec_width() + x]
    }

    /// What holds of every grid: it has a cell for each column of each row,
    /// at least one cell, every cell holds the byte of a material, and the
    /// selection lies in a palette that is not empty.
    pub open spec fn wf(&self) -> bool {
        &&& self.spec_width() > 0
        &&& self.spec_height() > 0
        &&& self.cells().len() == self.spec_width() * self.spec_height()
        &&& forall|i: int| 0 <= i < self.cells().len() ==> #[trigger] self.cells()[i] <= WATER
        &&& 0 <= self.selected_index() < self.palette().len()
    }

    /// A grid of `width` by `height` cells of air whose palette is air, sand
    /// and stone, with sand selected. Zero for a dimension is refused, and so
    /// is a grid with more cells than a vector can hold.
    pub fn new(width: u32, height: u32) -> (made: Result<Self, GridError>)
        ensures
            made matches Ok(g) ==> {
                &&& g.wf()
                &&& g.spec_width() == width
                &&& g.spec_height() == height
                &&& g.cells() == Seq::new((width * height) as nat, |i: int| AIR)
                &&& g.palette() == default_palette()
                &&& g.selected_index() == 1
            },
            made matches Err(e) ==> e == (if width == 0 || height == 0 {
                GridError::DegenerateDimensions
            } else {
                GridError::TooLarge
            }),
            made.is_ok() <==> width > 0 && height > 0 && width * height <= isize::MAX,
    {
        let mut palette: Vec<Particle> = Vec::new();
        palette.push(Particle::Air);
        palette.push(Particle::Sand);
        palette.push(Particle::Stone);
        assert(palette@ =~= default_palette());
        match Self::with_palette(width, height, palette) {
            Ok(mut g) => {
                g.selected = 1;
                Ok(g)
            },
            Err(e) => Err(e),
        }
    }

    /// A grid of `width` by `height` cells of air with the given palette, its
    /// first material selected. Zero for a dimension is refused first, then a
    /// grid with more cells than a vector can hold, then an empty palette.
    pub fn with_palette(width: u32, height: u32, palette: Vec<Particle>) -> (made: Result<
        Self,
        GridError,
    >)
        ensures
            made matches Ok(g) ==> {
                &&& g.wf()
                &&& g.spec_width() == width
                &&& g.spec_height() == height
                &&& g.cells() == Seq::new((width * height) as nat, |i: int| AIR)
                &&& g.palette() == palette@
                &&& g.selected_index() == 0
            },
            made matches Err(e) ==> e == (if width == 0 || height == 0 {
                GridError::DegenerateDimensions
            } else if width * height > isize::MAX {
                GridError::TooLarge
            } else {
                GridError::EmptyPalette
            }),
            made.is_ok() <==> width > 0 && height > 0 && width * height <= isize::MAX
                && palette@.len() > 0,
    {
        if width == 0 || height == 0 {
            return Err(GridError::DegenerateDimensions);
        }
        assert(width * height <= 0xffff_ffff * 0xffff_ffff) by (nonlinear_arith)
            requires
                width <= 0xffff_ffff,
                height <= 0xffff_ffff,
        ;
        assert(width * height > 0) by (nonlinear_arith)
            requires
                width > 0,
                height > 0,
        ;
        let count: u64 = width as u64 * height as u64;
        if count > isize::MAX as u64 {
            return Err(GridError::TooLarge);
        }
        if palette.len() == 0 {
            return Err(GridError::EmptyPalette);
        }
        let particle_grid: Vec<u8> = vec![AIR; count as usize];
        assert(particle_grid@ =~= Seq::new((width * height) as nat, |i: int| AIR));
        Ok(ParticleManager { particle_grid, width, height, palette, selected: 0 })
    }

    /// The number of columns.
    #[verifier::when_used_as_spec(spec_width)]
    pub fn width(&self) -> (w: u32)
        ensures
            w == self.spec_width(),
    {
        self.width
    }

    /// The number of rows.
    #[verifier::when_used_as_spec(spec_height)]
    pub fn height(&self) -> (h: u32)
        ensures
            h == self.spec_height(),
    {
        self.height
    }

    /// The cells, row by row: the snapshot that a renderer reads.
    pub fn particle_grid(&self) -> (grid: &[u8])
        ensures
            grid@ == self.cells(),
    {
        self.particle_grid.as_slice()
    }

    /// The byte of the selected material.
    pub fn selected_material(&self) -> (id: u8)
        requires
            self.wf(),
        ensures
            id == id_of(self.selection()),
    {
        self.palette[self.selected].id()
    }

    /// Selects the next material of the palette, the first after the last.
    pub fn cycle_material_up(&mut self)
        requires
            old(self).wf(),
        ensures
            final(self).wf(),
            final(self).selected_index() == next_index(
                old(self).selected_index(),
                old(self).palette().len() as int,
            ),
            final(self).palette() == old(self).palette(),
            final(self).cells() == old(self).cells(),
            final(self).spec_width() == old(self).spec_width(),
            final(self).spec_height() == old(self).spec_height(),
    {
        if self.selected >= self.palette.len() - 1 {
            self.selected = 0;
        } else {
            self.selected = self.selected + 1;
        }
    }

    /// Selects the previous material of the palette, the last before the
    /// first.
    pub fn cycle_material_down(&mut self)
        requires
            old(self).wf(),
        ensures
            final(self).wf(),
            final(self).selected_index() == previous_index(
                old(self).selected_index(),
                old(self).palette().len() as int,
            ),
            final(self).palette() == old(self).palette(),
            final(self).cells() == old(self).cells(),
            final(self).spec_width() == old(self).spec_width(),
            final(self).spec_height() == old(self).spec_height(),
    {
        if self.selected == 0 {
            self.selected = self.palette.len() - 1;
        } else {
            self.selected = self.selected - 1;
        }
    }

    /// The material in column `x` of row `y`; `None` outside the grid.
    pub fn get(&self, x: u32, y: u32) -> (found: Option<Particle>)
        requires
            self.wf(),
        ensures
            found.is_some() <==> x < self.spec_width() && y < self.spec_height(),
            found matches Some(p) ==> id_of(p) == self.cell(x as int, y as int),
    {
        if x >= self.width || y >= self.height {
            return None;
        }
        proof {
            lemma_index_of_cell(self.width as int, self.height as int, x as int, y as int);
        }
        let n: usize = self.particle_grid.len();
        let idx: usize = y as usize * self.width as usize + x as usize;
        Particle::from_id(self.particle_grid[idx])
    }

    /// Writes `material` into column `x` of row `y` and says whether that
    /// cell exists. Outside the grid nothing is written.
    pub fn set(&mut self, x: u32, y: u32, material: Particle) -> (written: bool)
        requires
            old(self).wf(),
        ensures
            final(self).wf(),
            written <==> x < old(self).spec_width() && y < old(self).spec_height(),
            written ==> final(self).cells() == old(self).cells().update(
                y * old(self).spec_width() + x,
                id_of(material),
            ),
            !written ==> final(self).cells() == old(self).cells(),
            final(self).spec_width() == old(self).spec_width(),
            final(self).spec_height() == old(self).spec_height(),
            final(self).palette() == old(self).palette(),
            final(self).selected_index() == old(self).selected_index(),
    {
        if x >= self.width || y >= self.height {
            return false;
        }
        proof {
            lemma_index_of_cell(self.width as int, self.height as int, x as int, y as int);
        }
        let n: usize = self.particle_grid.len();
        let idx: usize = y as usize * self.width as usize + x as usize;
        self.particle_grid[idx] = material.id();
        true
    }

    /// Stamps the selected material into every cell within `radius` of
    /// column `grid_x` of row `grid_y`, whatever those cells held. The centre
    /// may lie outside the grid.
    pub fn stamp_with_radius(&mut self, grid_x: i64, grid_y: i64, radius: u32)
        requires
            old(self).wf(),
        ensures
            final(self).wf(),
            final(self).cells() == stamped(
                old(self).cells(),
                old(self).spec_width() as int,
                grid_x as int,
                grid_y as int,
                radius as int,
                id_of(old(self).selection()),
            ),
            final(self).spec_width() == old(self).spec_width(),
            final(self).spec_height() == old(self).spec_height(),
            final(self).palette() == old(self).palette(),
            final(self).selected_index() == old(self).selected_index(),
    {
        let material: u8 = self.selected_material();
        stamp_circle(
            self.particle_grid.as_mut_slice(),
            self.width,
            self.height,
            grid_x,
            grid_y,
            radius,
            material,
        );
    }

    /// Stamps the selected material with the brush's own radius around column
    /// `grid_x` of row `grid_y`.
    pub fn stamp(&mut self, grid_x: i64, grid_y: i64)
        requires
            old(self).wf(),
        ensures
            final(self).wf(),
            final(self).cells() == stamped(
                old(self).cells(),
                old(self).spec_width() as int,
                grid_x as int,
                grid_y as int,
                RADIUS_ADD_PARTICLES as int,
                id_of(old(self).selection()),
            ),
            final(self).spec_width() == old(self).spec_width(),
            final(self).spec_height() == old(self).spec_height(),
            final(self).palette() == old(self).palette(),
            final(self).selected_index() == old(self).selected_index(),
    {
        self.stamp_with_radius(grid_x, grid_y, RADIUS_ADD_PARTICLES);
    }

    /// Stamps the selected material under the pointer: the pointer's position
    /// in whole pixels, in a window of the given size, is scaled to the grid
    /// and rounded down, and the brush is stamped around that cell. In a
    /// window without width or height nothing is painted.
    pub fn add_material_at_cursor(
        &mut self,
        window_width: u32,
        window_height: u32,
        cursor_x: i32,
        cursor_y: i32,
    )
        requires
            old(self).wf(),
        ensures
            final(self).wf(),
            final(self).cells() == (if window_width == 0 || window_height == 0 {
                old(self).cells()
            } else {
                stamped(
                    old(self).cells(),
                    old(self).spec_width() as int,
                    grid_coordinate(
                        cursor_x as int,
                        window_width as int,
                        old(self).spec_width() as int,
                    ),
                    grid_coordinate(
                        cursor_y as int,
                        window_height as int,
                        old(self).spec_height() as int,
                    ),
                    RADIUS_ADD_PARTICLES as int,
                    id_of(old(self).selection()),
                )
            }),
            final(self).spec_width() == old(self).spec_width(),
            final(self).spec_height() == old(self).spec_height(),
            final(self).palette() == old(self).palette(),
            final(self).selected_index() == old(self).selected_index(),
    {
        if window_width == 0 || window_height == 0 {
            return ;
        }
        let grid_x: i64 = cursor_to_grid(cursor_x, window_width, self.width);
        let grid_y: i64 = cursor_to_grid(cursor_y, window_height, self.height);
        self.stamp(grid_x, grid_y);
    }

    /// Advances the grid by one tick.
    pub fn simulate_particles(&mut self)
        requires
            old(self).wf(),
        ensures
            final(self).wf(),
            final(self).cells() == step(
                old(self).cells(),
                old(self).spec_width() as int,
                old(self).spec_height() as int,
            ),
            final(self).spec_width() == old(self).spec_width(),
            final(self).spec_height() == old(self).spec_height(),
            final(self).palette() == old(self).palette(),
            final(self).selected_index() == old(self).selected_index(),
    {
        proof {
            lemma_step_permutes(self.cells(), self.width as int, self.height as int);
            lemma_step_conserves(self.cells(), self.width as int, self.height as int);
        }
        let ghost before = self.particle_grid@;
        let ghost origin = step_origin(before, self.width as int, self.height as int);
        simulate_particles(self.particle_grid.as_mut_slice(), self.height, self.width);
        assert forall|i: int| 0 <= i < self.particle_grid@.len() implies #[trigger] self.particle_grid@[i]
            <= WATER by {
            assert(self.particle_grid@[i] == before[origin[i]]);
        }
    }
}

} // verus!
