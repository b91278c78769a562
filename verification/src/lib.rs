//! Verified core of an artificial-life simulation of exploring bacteria on a
//! toroidal grid: the pseudo-random generator, the grid geometry and moves,
//! windows of recent cells, crowding counts, who may mate, the random
//! decisions of inheritance, the population cap and food-agent limit, the
//! byte memory of the board, the schedule of
//! snapshots, and the binary format of saved populations.

pub mod rng;
pub mod grid;
pub mod params;
pub mod window;
pub mod draws;
pub mod colony;
pub mod memory;
pub mod schedule;
pub mod genome;
pub mod population;
