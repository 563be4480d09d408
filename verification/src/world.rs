//! The world as a value, its invariant, and the elementary changes to it.

use vstd::prelude::*;
use crate::config::SimConfig;
use crate::feature::PlanetFeature;
use crate::planet::Planet;
use crate::ship::{Ship, ShipGoal, ShipJob};
use crate::system::{tree_wf, same_shape, moons, parent_of};

verus! {

/// The simulation as a value: its bodies, its ships, and the ships that are to
/// be removed when the tick ends.
pub struct World {
    pub system: Seq<Planet>,
    pub ships: Seq<Ship>,
    pub killed: Seq<usize>,
}

/// At least two bodies carry a station and at least one carries ore.
pub open spec fn populated(system: Seq<Planet>) -> bool {
    &&& exists|a: int, b: int|
        0 <= a < b < system.len() && (#[trigger] system[a]).is_station() && (
        #[trigger] system[b]).is_station()
    &&& exists|c: int| 0 <= c < system.len() && (#[trigger] system[c]).is_ore()
}

/// Every station can take `n` more units.
pub open spec fn room(system: Seq<Planet>, n: int) -> bool {
    forall|b: int| 0 <= b < system.len() ==> (#[trigger] system[b]).stock() + n <= usize::MAX
}

/// Whether a ship's job and goal go together, and what the goal points at
/// exists: miners visit featured bodies and wait no longer than a harvest
/// takes, traders visit stations, pirates wander, scan, or hunt a trader for
/// no longer than a raid takes.
pub open spec fn ship_wf(system: Seq<Planet>, ships: Seq<Ship>, config: SimConfig, ship: Ship) -> bool {
    match (ship.job, ship.goal) {
        (ShipJob::Miner, ShipGoal::Visit { target }) => target < system.len()
            && system[target as int].feat is Some,
        (ShipJob::Miner, ShipGoal::Wait { target, progress }) => target < system.len() && progress
            <= config.harvest_duration,
        (ShipJob::Trader { .. }, ShipGoal::Visit { target }) => target < system.len()
            && system[target as int].is_station(),
        (ShipJob::Pirate, ShipGoal::Wander) => true,
        (ShipJob::Pirate, ShipGoal::Scan) => true,
        (ShipJob::Pirate, ShipGoal::Hunt { prey, progress }) => prey < ships.len()
            && ships[prey as int].job is Trader && progress <= config.raid_duration + 1,
        _ => false,
    }
}

impl World {
    /// The tree of bodies is sound and populated, every ship is in a state
    /// that the rules know, and the removal list names ships, each once.
    pub open spec fn wf(self, config: SimConfig) -> bool {
        &&& self.system.len() <= usize::MAX
        &&& self.ships.len() <= usize::MAX
        &&& tree_wf(self.system)
        &&& populated(self.system)
        &&& forall|i: int|
            0 <= i < self.ships.len() ==> ship_wf(
                self.system,
                self.ships,
                config,
                #[trigger] self.ships[i],
            )
        &&& forall|j: int| 0 <= j < self.killed.len() ==> (#[trigger] self.killed[j]) < self.ships.len()
        &&& forall|j: int, k: int|
            0 <= j < k < self.killed.len() ==> (#[trigger] self.killed[j]) != (
            #[trigger] self.killed[k])
    }

    /// The world with ship `i` given another goal.
    pub open spec fn retask(self, i: int, goal: ShipGoal) -> World {
        World { ships: self.ships.update(i, Ship { goal, job: self.ships[i].job }), ..self }
    }

    /// The world with ship `i` given another job.
    pub open spec fn rehire(self, i: int, job: ShipJob) -> World {
        World { ships: self.ships.update(i, Ship { goal: self.ships[i].goal, job }), ..self }
    }

    /// The world with the station on body `b` holding `stock` units.
    pub open spec fn restock(self, b: int, stock: int) -> World {
        World {
            system: self.system.update(
                b,
                Planet {
                    orbit: self.system[b].orbit,
                    feat: Some(PlanetFeature::Station { stock: stock as usize }),
                    moon_indices: self.system[b].moon_indices,
                },
            ),
            ..self
        }
    }

    /// The world with ship `prey` relieved of its cargo.
    pub open spec fn strip(self, prey: int) -> World {
        if self.ships[prey].job is Trader {
            self.rehire(prey, ShipJob::Trader { cargo: false })
        } else {
            self
        }
    }

    /// The world with ship `prey` on the removal list, once.
    pub open spec fn condemn(self, prey: int) -> World {
        if self.killed.contains(prey as usize) {
            self
        } else {
            World { killed: self.killed.push(prey as usize), ..self }
        }
    }

    /// The units of ore in the stations.
    pub open spec fn stocked(self) -> int {
        stock_sum(self.system)
    }

    /// The units of ore aboard traders.
    pub open spec fn afloat(self) -> int {
        cargo_sum(self.ships)
    }

    /// All units of ore: in the stations and aboard traders.
    pub open spec fn units(self) -> int {
        self.stocked() + self.afloat()
    }
}

/// The sum of the stocks of all stations.
pub open spec fn stock_sum(system: Seq<Planet>) -> int
    decreases system.len(),
{
    if system.len() == 0 {
        0
    } else {
        stock_sum(system.drop_last()) + system.last().stock()
    }
}

/// The number of traders with cargo aboard.
pub open spec fn cargo_sum(ships: Seq<Ship>) -> int
    decreases ships.len(),
{
    if ships.len() == 0 {
        0
    } else {
        cargo_sum(ships.drop_last()) + if ships.last().carries() {
            1int
        } else {
            0int
        }
    }
}

/// Changing a station's stock leaves a sound world sound.
pub proof fn lemma_restock_wf(w: World, config: SimConfig, b: int, stock: int)
    requires
        w.wf(config),
        0 <= b < w.system.len(),
        w.system[b].is_station(),
        0 <= stock <= usize::MAX,
    ensures
        w.restock(b, stock).wf(config),
        same_shape(w.system, w.restock(b, stock).system),
        w.restock(b, stock).system[b].stock() == stock,
        forall|x: int|
            0 <= x < w.system.len() && x != b ==> (#[trigger] w.restock(b, stock).system[x])
                == w.system[x],
{
    let v = w.restock(b, stock);
    assert(b != 0);
    assert forall|i: int| 1 <= i < v.system.len() implies {
        &&& (#[trigger] v.system[i]).orbit is Some
        &&& v.system[i].orbit.unwrap().wf()
        &&& parent_of(v.system, i) < i
    } by {
        assert(w.system[i].orbit is Some);
    }
    assert forall|p: int| 0 <= p < v.system.len() implies moons(v.system, p) == moons(
        w.system,
        p,
    ) by {}
    assert forall|p: int, j: int|
        0 <= p < v.system.len() && 0 <= j < moons(v.system, p).len() implies {
        &&& p < (#[trigger] moons(v.system, p)[j]) < v.system.len()
        &&& v.system[moons(v.system, p)[j] as int].orbit is Some
        &&& parent_of(v.system, moons(v.system, p)[j] as int) == p
    } by {
        let m = moons(w.system, p)[j];
        assert(p < m < w.system.len());
    }
    assert forall|p: int, j: int, k: int|
        0 <= p < v.system.len() && 0 <= j < k < moons(v.system, p).len() implies (#[trigger] moons(
        v.system,
        p,
    )[j]) < (#[trigger] moons(v.system, p)[k]) by {
        assert(moons(w.system, p)[j] < moons(w.system, p)[k]);
    }
    assert forall|i: int| 1 <= i < v.system.len() implies moons(
        v.system,
        #[trigger] parent_of(v.system, i),
    ).contains(i as usize) by {
        assert(w.system[i].orbit is Some);
        assert(parent_of(v.system, i) == parent_of(w.system, i));
        assert(moons(w.system, parent_of(w.system, i)).contains(i as usize));
    }
    lemma_restock_populated(w.system, v.system);
    assert forall|i: int| 0 <= i < v.ships.len() implies ship_wf(
        v.system,
        v.ships,
        config,
        #[trigger] v.ships[i],
    ) by {
        assert(ship_wf(w.system, w.ships, config, w.ships[i]));
        match w.ships[i].goal {
            ShipGoal::Visit { target } => {
                assert(v.system[target as int].feat is Some);
            },
            _ => {},
        }
    }
}

/// A system whose features keep their kinds stays populated.
pub proof fn lemma_restock_populated(before: Seq<Planet>, after: Seq<Planet>)
    requires
        populated(before),
        before.len() == after.len(),
        forall|x: int|
            0 <= x < before.len() ==> (#[trigger] before[x]).is_station() == after[x].is_station()
                && before[x].is_ore() == after[x].is_ore(),
    ensures
        populated(after),
{
    let (a, b) = choose|a: int, b: int|
        0 <= a < b < before.len() && (#[trigger] before[a]).is_station() && (
        #[trigger] before[b]).is_station();
    assert(after[a].is_station() && after[b].is_station());
    let c = choose|c: int| 0 <= c < before.len() && (#[trigger] before[c]).is_ore();
    assert(after[c].is_ore());
}

/// Giving a ship a goal that suits its job leaves a sound world sound.
pub proof fn lemma_retask_wf(w: World, config: SimConfig, i: int, goal: ShipGoal)
    requires
        w.wf(config),
        0 <= i < w.ships.len(),
        ship_wf(w.system, w.ships, config, Ship { goal, job: w.ships[i].job }),
    ensures
        w.retask(i, goal).wf(config),
{
    let v = w.retask(i, goal);
    assert forall|k: int| 0 <= k < v.ships.len() implies ship_wf(
        v.system,
        v.ships,
        config,
        #[trigger] v.ships[k],
    ) by {
        assert(ship_wf(w.system, w.ships, config, w.ships[k]));
        let s = if k == i {
            Ship { goal, job: w.ships[i].job }
        } else {
            w.ships[k]
        };
        assert(v.ships[k] == s);
        match s.goal {
            ShipGoal::Hunt { prey, progress } => {
                assert(v.ships[prey as int].job == w.ships[prey as int].job);
            },
            _ => {},
        }
    }
}

/// Loading or unloading a trader leaves a sound world sound.
pub proof fn lemma_rehire_wf(w: World, config: SimConfig, i: int, cargo: bool)
    requires
        w.wf(config),
        0 <= i < w.ships.len(),
        w.ships[i].job is Trader,
    ensures
        w.rehire(i, ShipJob::Trader { cargo }).wf(config),
{
    let v = w.rehire(i, ShipJob::Trader { cargo });
    assert forall|k: int| 0 <= k < v.ships.len() implies ship_wf(
        v.system,
        v.ships,
        config,
        #[trigger] v.ships[k],
    ) by {
        assert(ship_wf(w.system, w.ships, config, w.ships[k]));
        match v.ships[k].goal {
            ShipGoal::Hunt { prey, progress } => {
                assert(v.ships[prey as int].job is Trader);
            },
            _ => {},
        }
    }
}

/// Putting a ship on the removal list leaves a sound world sound.
pub proof fn lemma_condemn_wf(w: World, config: SimConfig, prey: int)
    requires
        w.wf(config),
        0 <= prey < w.ships.len(),
    ensures
        w.condemn(prey).wf(config),
{
    let v = w.condemn(prey);
    if !w.killed.contains(prey as usize) {
        assert forall|j: int, k: int| 0 <= j < k < v.killed.len() implies (#[trigger] v.killed[j])
            != (#[trigger] v.killed[k]) by {
            if k == w.killed.len() {
                assert(w.killed[j] == v.killed[j]);
                assert(w.killed.contains(w.killed[j]));
            } else {
                assert(w.killed[j] != w.killed[k]);
            }
        }
        assert forall|j: int| 0 <= j < v.killed.len() implies (#[trigger] v.killed[j])
            < v.ships.len() by {
            if j < w.killed.len() {
                assert(w.killed[j] == v.killed[j]);
            }
        }
    }
}

} // verus!
