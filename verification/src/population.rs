//! Limits on how many agents live on the board: accepting newborn bacteria
//! under the population cap, and the number of food agents after deaths and
//! splits.

use vstd::prelude::*;
use crate::params::MAX_FOOD;

verus! {

/// What happens when a newborn bacterium arrives.
pub struct Admission {
    /// The bacterium removed to make room, when the population is full.
    pub remove: Option<usize>,
    /// Whether the newborn joins the population.
    pub joins: bool,
}

/// The population after an admission decision.
pub open spec fn population_after(active: int, a: Admission) -> int {
    active - (if a.remove is Some { 1int } else { 0int }) + (if a.joins { 1int } else { 0int })
}

/// Decides on a newborn when `active` bacteria live under a cap of `cap`:
/// when the population is full, the least diverse bacterium `worst` (if one
/// was found) makes room; the newborn joins when there is room after that.
pub fn accept_newborn(active: usize, cap: usize, worst: Option<usize>) -> (r: Admission)
    requires
        worst matches Some(i) ==> i < active,
    ensures
        r.remove == (if active >= cap { worst } else { None }),
        r.joins == (active - (if r.remove is Some { 1int } else { 0int }) < cap),
        active <= cap ==> population_after(active as int, r) <= cap,
        population_after(active as int, r) <= active + 1,
{
    let remove = if active >= cap { worst } else { None };
    let remaining = match remove {
        Some(_) => active - 1,
        None => active,
    };
    Admission { remove, joins: remaining < cap }
}

/// The food agents of a tick: those alive after the deaths, and those born
/// of splits so far.
pub struct FoodCount {
    pub current: usize,
    pub born: usize,
}

impl FoodCount {
    pub open spec fn total(self) -> int {
        self.current + self.born
    }

    /// The count after the deaths of a tick, when `alive` agents remain, and
    /// whether a new agent must appear because none is left.
    pub fn after_deaths(alive: usize) -> (r: (FoodCount, bool))
        ensures
            r.1 == (alive == 0),
            r.0.current == (if alive == 0 { 1 } else { alive }),
            r.0.born == 0,
            r.0.total() >= 1,
            alive <= MAX_FOOD ==> r.0.total() <= MAX_FOOD,
    {
        if alive == 0 {
            (FoodCount { current: 1, born: 0 }, true)
        } else {
            (FoodCount { current: alive, born: 0 }, false)
        }
    }

    /// Whether an agent ready to split may do so: only while the agents and
    /// their newborns stay under `MAX_FOOD`. A split is counted.
    pub fn try_split(&mut self) -> (r: bool)
        ensures
            r == (old(self).total() < MAX_FOOD),
            final(self).current == old(self).current,
            final(self).born == old(self).born + if r { 1int } else { 0int },
            old(self).total() <= MAX_FOOD ==> final(self).total() <= MAX_FOOD,
            final(self).total() >= old(self).total(),
    {
        if self.current < MAX_FOOD && self.born < MAX_FOOD - self.current {
            self.born = self.born + 1;
            true
        } else {
            false
        }
    }
}

} // verus!
