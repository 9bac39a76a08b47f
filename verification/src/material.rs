//! The material table: the closed set of materials, the byte that stands for
//! each in a grid, and the movement class that governs how each one falls.

use vstd::prelude::*;

verus! {

/// How a material reacts to gravity during a tick.
#[derive(Clone, Copy, PartialEq, Eq, Debug, Structural)]
pub enum Movement {
    /// Never moves by itself.
    Immovable,
    /// Moves only into the cell directly below.
    StraightFall,
    /// Moves down, else down-right, else down-left.
    DiagonalFall,
}

/// A material that a grid cell can hold.
#[derive(Clone, Copy, PartialEq, Eq, Debug, Structural)]
pub enum Particle {
    Air,
    Sand,
    Stone,
    Water,
}

/// The byte of the empty cell, into which other materials may move.
pub const AIR: u8 = 0;

/// The byte of sand.
pub const SAND: u8 = 1;

/// The byte of stone.
pub const STONE: u8 = 2;

/// The byte of water.
pub const WATER: u8 = 3;

/// The movement class of the material that the byte `id` stands for. A byte
/// that stands for no material is an obstacle: it never moves and nothing
/// moves into it.
pub open spec fn movement_of(id: u8) -> Movement {
    if id == SAND || id == WATER {
        Movement::DiagonalFall
    } else if id == STONE {
        Movement::StraightFall
    } else {
        Movement::Immovable
    }
}

/// The byte that stands for `p` in a grid.
pub open spec fn id_of(p: Particle) -> u8 {
    match p {
        Particle::Air => AIR,
        Particle::Sand => SAND,
        Particle::Stone => STONE,
        Particle::Water => WATER,
    }
}

/// The material that the byte `id` stands for, if any.
pub open spec fn particle_of(id: u8) -> Option<Particle> {
    if id == AIR {
        Some(Particle::Air)
    } else if id == SAND {
        Some(Particle::Sand)
    } else if id == STONE {
        Some(Particle::Stone)
    } else if id == WATER {
        Some(Particle::Water)
    } else {
        None
    }
}

/// The display colour of `p` as blue, green, red, alpha.
pub open spec fn bgra_of(p: Particle) -> Seq<u8> {
    match p {
        Particle::Air => seq![255u8, 255u8, 255u8, 255u8],
        Particle::Sand => seq![128u8, 178u8, 194u8, 255u8],
        Particle::Stone => seq![128u8, 128u8, 128u8, 255u8],
        Particle::Water => seq![230u8, 144u8, 64u8, 255u8],
    }
}

/// The display colours of `particles`, four bytes for each, one particle
/// after the other.
pub open spec fn bgra_bytes(particles: Seq<Particle>) -> Seq<u8> {
    Seq::new(4 * particles.len(), |j: int| bgra_of(particles[j / 4])[j % 4])
}

/// Looks up the movement class of the byte `id`.
pub fn movement_class(id: u8) -> (m: Movement)
    ensures
        m == movement_of(id),
{
    if id == SAND || id == WATER {
        Movement::DiagonalFall
    } else if id == STONE {
        Movement::StraightFall
    } else {
        Movement::Immovable
    }
}

impl Particle {
    /// The byte that stands for this material in a grid.
    pub fn id(&self) -> (id: u8)
        ensures
            id == id_of(*self),
            particle_of(id) == Some(*self),
    {
        match self {
            Particle::Air => AIR,
            Particle::Sand => SAND,
            Particle::Stone => STONE,
            Particle::Water => WATER,
        }
    }

    /// The material that the byte `id` stands for; `None` for a byte that
    /// stands for none.
    pub fn from_id(id: u8) -> (p: Option<Particle>)
        ensures
            p == particle_of(id),
            p.is_some() <==> id <= WATER,
            p.is_some() ==> id_of(p.unwrap()) == id,
    {
        if id == AIR {
            Some(Particle::Air)
        } else if id == SAND {
            Some(Particle::Sand)
        } else if id == STONE {
            Some(Particle::Stone)
        } else if id == WATER {
            Some(Particle::Water)
        } else {
            None
        }
    }

    /// The movement class of this material.
    pub fn movement(&self) -> (m: Movement)
        ensures
            m == movement_of(id_of(*self)),
    {
        match self {
            Particle::Air => Movement::Immovable,
            Particle::Sand => Movement::DiagonalFall,
            Particle::Stone => Movement::StraightFall,
            Particle::Water => Movement::DiagonalFall,
        }
    }

    /// The display colour of this material as blue, green, red, alpha.
    pub fn to_bgra(&self) -> (c: [u8; 4])
        ensures
            c@ == bgra_of(*self),
    {
        let c: [u8; 4] = match self {
            Particle::Air => [255, 255, 255, 255],
            Particle::Sand => [128, 178, 194, 255],
            Particle::Stone => [128, 128, 128, 255],
            Particle::Water => [230, 144, 64, 255],
        };
        assert(c@ =~= bgra_of(*self));
        c
    }
}

/// Turns a row-major grid of particles into the bytes of an image of the
/// same size, four bytes to the pixel: blue, green, red, alpha.
pub fn particles_to_bgra(particles: &[Particle]) -> (bytes: Vec<u8>)
    ensures
        bytes@ == bgra_bytes(particles@),
{
    let mut bytes: Vec<u8> = Vec::new();
    let mut i: usize = 0;
    while i < particles.len()
        invariant
            i <= particles@.len(),
            bytes@.len() == 4 * i,
            forall|j: int|
                0 <= j < 4 * i ==> #[trigger] bytes@[j] == bgra_of(particles@[j / 4])[j % 4],
        decreases particles@.len() - i,
    {
        let colour: [u8; 4] = particles[i].to_bgra();
        bytes.push(colour[0]);
        bytes.push(colour[1]);
        bytes.push(colour[2]);
        bytes.push(colour[3]);
        i = i + 1;
    }
    assert(bytes@ =~= bgra_bytes(particles@));
    bytes
}

} // verus!
