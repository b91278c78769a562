//! The random decisions of the simulation that are made on integers: which
//! parent a gene comes from, whether it mutates, whether two bacteria that
//! meet mate, and the random cells at which agents appear.

use vstd::prelude::*;
use crate::rng::{XorShift32, xorshift};
use crate::grid::{GRID_SIZE, cardinal_spec, cardinal_neighbors};
use crate::params::REPRODUCE_PROB;

verus! {

/// Chance, in percent, that an inherited gene mutates.
pub const MUTATION_PCT: u32 = 4;

/// Draws once and tells whether a gene comes from the first parent, which
/// happens when the draw modulo 100 is below `pa`.
pub fn pick_from_first(pa: u32, rng: &mut XorShift32) -> (r: bool)
    ensures
        final(rng).state == xorshift(old(rng).state),
        r == (final(rng).state % 100 < pa),
{
    rng.next_u32() % 100 < pa
}

/// Decides whether a gene mutates: one draw, and when it is below
/// `MUTATION_PCT` modulo 100, a second draw that sets the size of the
/// mutation, which is returned.
pub fn mutation_draw(rng: &mut XorShift32) -> (r: Option<u32>)
    ensures
        ({
            let d = xorshift(old(rng).state);
            if d % 100 < MUTATION_PCT {
                r == Some(xorshift(d)) && final(rng).state == xorshift(d)
            } else {
                r is None && final(rng).state == d
            }
        }),
{
    if rng.next_u32() % 100 < MUTATION_PCT {
        Some(rng.next_u32())
    } else {
        None
    }
}

/// Draws once and tells whether two eligible bacteria that meet mate.
pub fn mating_roll(rng: &mut XorShift32) -> (r: bool)
    ensures
        final(rng).state == xorshift(old(rng).state),
        r == (final(rng).state % 100 < REPRODUCE_PROB),
{
    rng.next_u32() % 100 < REPRODUCE_PROB
}

/// Draws once and gives `first` when the draw is even, else `second`.
pub fn coin_pick(first: usize, second: usize, rng: &mut XorShift32) -> (r: usize)
    ensures
        final(rng).state == xorshift(old(rng).state),
        r == (if final(rng).state % 2 == 0 { first } else { second }),
{
    if rng.next_u32() % 2 == 0 {
        first
    } else {
        second
    }
}

/// A cell drawn at random: the draw modulo the grid size.
pub fn random_cell(rng: &mut XorShift32) -> (r: usize)
    ensures
        final(rng).state == xorshift(old(rng).state),
        r == final(rng).state as int % GRID_SIZE as int,
        r < GRID_SIZE,
{
    (rng.next_u32() as usize) % GRID_SIZE
}

/// One of the four cardinal neighbours of `pos`, drawn at random: the one at
/// the draw modulo 4 in the order north, south, east, west.
pub fn random_neighbor(pos: usize, rng: &mut XorShift32) -> (r: usize)
    ensures
        final(rng).state == xorshift(old(rng).state),
        r as int == cardinal_spec(pos as int)[final(rng).state as int % 4],
{
    let nbrs = cardinal_neighbors(pos);
    let k = (rng.next_u32() as usize) % 4;
    nbrs[k]
}

} // verus!
