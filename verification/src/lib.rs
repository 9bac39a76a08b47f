//! A falling-sand cellular automaton: the grid, the update rule that moves
//! material one tick at a time, the brush that paints it, and the clock that
//! decides when a tick is due.

pub mod geometry;
pub mod material;
pub mod simulate;
pub mod motion;
pub mod particle_manager;
pub mod brush;
pub mod buffers;
pub mod clock;
pub mod application;
