//! The order in which positions are computed, and lookups by feature.

use vstd::prelude::*;
use crate::feature::PlanetFeature;
use crate::planet::Planet;
use crate::query::{filter_system, selects};
use crate::simulation::Simulation;
use crate::system::moons;

verus! {

/// The bodies below the moons of body `p` that stand at position `from` or
/// later in its moon list, in the order in which their positions are to be
/// computed: each moon, then what is below it, then the next moon. An entry
/// that does not name a later body is passed over.
pub open spec fn tour(system: Seq<Planet>, p: int, from: int) -> Seq<usize>
    decreases system.len() - p, moons(system, p).len() - from,
{
    if 0 <= p < system.len() && 0 <= from < moons(system, p).len() {
        let m = moons(system, p)[from] as int;
        if p < m < system.len() {
            subsystem(system, m) + tour(system, p, from + 1)
        } else {
            tour(system, p, from + 1)
        }
    } else {
        Seq::empty()
    }
}

/// Body `i` and what is below it, in the order in which their positions are
/// to be computed: a body before its moons.
pub open spec fn subsystem(system: Seq<Planet>, i: int) -> Seq<usize>
    decreases system.len() - i, moons(system, i).len() + 1,
{
    if 0 <= i < system.len() {
        seq![i as usize] + tour(system, i, 0)
    } else {
        Seq::empty()
    }
}

impl Simulation {
    /// The order in which the positions of body `pl_index` and of the bodies
    /// below it are to be computed: the body itself, then each of its moons
    /// with what is below that moon. Called on the sun, it orders the whole
    /// system. A body without an orbit, the sun, is listed and stays where it
    /// is.
    pub fn update_planet_position(&self, pl_index: usize) -> (order: Vec<usize>)
        ensures
            order@ == subsystem(self.system@, pl_index as int),
        decreases self.system.len() - pl_index,
    {
        let mut order: Vec<usize> = Vec::new();
        if pl_index >= self.system.len() {
            return order;
        }
        order.push(pl_index);
        let count = self.system[pl_index].moon_indices.len();
        let mut j: usize = 0;
        while j < count
            invariant
                j <= count,
                pl_index < self.system.len(),
                count == moons(self.system@, pl_index as int).len(),
                order@ + tour(self.system@, pl_index as int, j as int) == subsystem(
                    self.system@,
                    pl_index as int,
                ),
            decreases count - j,
        {
            let m = self.system[pl_index].moon_indices[j];
            let ghost rest = tour(self.system@, pl_index as int, j + 1);
            let ghost before = order@;
            if pl_index < m && m < self.system.len() {
                let mut below = self.update_planet_position(m);
                order.append(&mut below);
                proof {
                    assert(order@ + rest =~= before + (subsystem(self.system@, m as int) + rest));
                }
            }
            j += 1;
        }
        proof {
            assert(order@ + Seq::<usize>::empty() =~= order@);
        }
        order
    }

    /// The bodies whose feature passes the filter, ascending. Features are
    /// matched by kind; the empty filter passes the bodies without a feature.
    pub fn planets_with_feature(&self, filter: Option<PlanetFeature>) -> (picked: Vec<usize>)
        ensures
            selects(self.system@, filter, picked@),
    {
        filter_system(&self.system, filter)
    }
}

} // verus!
