//! Mission sequencing for a simulated micromouse: the maze text shaper, the
//! peripheral resource set and its ownership hand-off, and the phase
//! lifecycle with its step driver.

pub mod lifecycle;
pub mod maze;
pub mod resources;
