//! Integer parameters of the model.

use vstd::prelude::*;

verus! {

/// Recurrent neurons of an agent's network.
pub const N_NEUR: usize = 12;
/// Sensor inputs of an agent's network.
pub const N_SENS: usize = 14;
/// Actions an agent's network chooses among: stay, north, south, east, west.
pub const N_ACT: usize = 5;

/// Largest bacterial population of the board.
pub const MAX_POP: usize = 64;
/// A bacterium older than this dies.
pub const MAX_AGE: u32 = 80_000;
/// Chance, in percent, that two eligible bacteria on one cell mate.
pub const REPRODUCE_PROB: u32 = 30;
/// Ticks after a birth before a bacterium can mate again.
pub const COOLDOWN: u32 = 2_000;
/// Age from which a bacterium that explores too little starves.
pub const STARVATION_AGE: u32 = 5_000;
/// Length of a run, in ticks.
pub const MAX_STEPS: u32 = 1_000_000;
/// Largest number of food agents.
pub const MAX_FOOD: usize = 3;

} // verus!
