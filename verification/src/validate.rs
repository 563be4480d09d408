//! Run-time decisions of the invariants, for callers that Verus does not see.

use vstd::prelude::*;
use crate::config::SimConfig;
use crate::machine::listed;
use crate::planet::Planet;
use crate::query::{ore_indices, station_indices};
use crate::ship::{Ship, ShipGoal, ShipJob};
use crate::simulation::Simulation;
use crate::system::{moons, moons_complete, moons_orbit_owner, parent_of, rooted, tree_wf};
use crate::feature::PlanetFeature;
use crate::world::{populated, room, ship_wf};

verus! {

/// Decides `rooted`.
pub fn is_rooted(system: &Vec<Planet>) -> (r: bool)
    ensures
        r == rooted(system@),
{
    if system.len() == 0 {
        return false;
    }
    if system[0].orbit.is_some() || system[0].feat.is_some() {
        return false;
    }
    let mut i: usize = 1;
    while i < system.len()
        invariant
            1 <= i <= system.len(),
            system[0].orbit is None,
            system[0].feat is None,
            forall|x: int|
                1 <= x < i ==> {
                    &&& (#[trigger] system[x]).orbit is Some
                    &&& system[x].orbit.unwrap().wf()
                    &&& parent_of(system@, x) < x
                },
        decreases system.len() - i,
    {
        match system[i].orbit {
            Some(orbit) => {
                if orbit.speed < 1 || orbit.speed > 3 || orbit.parent_index >= i {
                    assert(!(system[i as int].orbit.unwrap().wf() && parent_of(system@, i as int)
                        < i));
                    return false;
                }
            },
            None => {
                assert(system[i as int].orbit is None);
                return false;
            },
        }
        i += 1;
    }
    true
}

/// Whether the moon list of body `p` is strictly ascending and names bodies
/// that orbit `p`.
pub open spec fn list_owned(system: Seq<Planet>, p: int) -> bool {
    &&& forall|j: int|
        0 <= j < moons(system, p).len() ==> {
            &&& p < (#[trigger] moons(system, p)[j]) < system.len()
            &&& system[moons(system, p)[j] as int].orbit is Some
            &&& parent_of(system, moons(system, p)[j] as int) == p
        }
    &&& forall|j: int, k: int|
        0 <= j < k < moons(system, p).len() ==> (#[trigger] moons(system, p)[j]) < (
        #[trigger] moons(system, p)[k])
}

/// Decides `list_owned`.
pub fn is_list_owned(system: &Vec<Planet>, p: usize) -> (r: bool)
    requires
        p < system.len(),
    ensures
        r == list_owned(system@, p as int),
{
    let list = &system[p].moon_indices;
    let mut j: usize = 0;
    while j < list.len()
        invariant
            j <= list.len(),
            p < system.len(),
            list@ == moons(system@, p as int),
            forall|x: int|
                0 <= x < j ==> {
                    &&& p < (#[trigger] list[x]) < system.len()
                    &&& system[list[x] as int].orbit is Some
                    &&& parent_of(system@, list[x] as int) == p
                },
            forall|x: int, y: int| 0 <= x < y < j ==> (#[trigger] list[x]) < (#[trigger] list[y]),
        decreases list.len() - j,
    {
        let m = list[j];
        if m <= p || m >= system.len() {
            assert(!(p < moons(system@, p as int)[j as int] < system.len()));
            return false;
        }
        match system[m].orbit {
            Some(orbit) => {
                if orbit.parent_index != p {
                    assert(parent_of(system@, moons(system@, p as int)[j as int] as int) != p);
                    return false;
                }
            },
            None => {
                assert(system[moons(system@, p as int)[j as int] as int].orbit is None);
                return false;
            },
        }
        if j > 0 && list[j - 1] >= m {
            assert(!(moons(system@, p as int)[j - 1] < moons(system@, p as int)[j as int]));
            return false;
        }
        assert forall|x: int, y: int| 0 <= x < y < j + 1 implies (#[trigger] list[x]) < (
        #[trigger] list[y]) by {
            if y == j && x < j - 1 {
                assert(list[x] < list[j - 1]);
            }
        }
        j += 1;
    }
    true
}

/// Decides `moons_orbit_owner`.
pub fn are_moons_owned(system: &Vec<Planet>) -> (r: bool)
    ensures
        r == moons_orbit_owner(system@),
{
    let mut p: usize = 0;
    while p < system.len()
        invariant
            p <= system.len(),
            forall|x: int| 0 <= x < p ==> list_owned(system@, x),
        decreases system.len() - p,
    {
        if !is_list_owned(system, p) {
            assert(!list_owned(system@, p as int));
            return false;
        }
        p += 1;
    }
    proof {
        assert forall|x: int, j: int|
            0 <= x < system@.len() && 0 <= j < moons(system@, x).len() implies {
            &&& x < (#[trigger] moons(system@, x)[j]) < system@.len()
            &&& system@[moons(system@, x)[j] as int].orbit is Some
            &&& parent_of(system@, moons(system@, x)[j] as int) == x
        } by {
            assert(list_owned(system@, x));
        }
        assert forall|x: int, j: int, k: int|
            0 <= x < system@.len() && 0 <= j < k < moons(system@, x).len() implies (
        #[trigger] moons(system@, x)[j]) < (#[trigger] moons(system@, x)[k]) by {
            assert(list_owned(system@, x));
        }
    }
    true
}

/// Decides `moons_complete` for a rooted system.
pub fn are_moons_complete(system: &Vec<Planet>) -> (r: bool)
    requires
        rooted(system@),
    ensures
        r == moons_complete(system@),
{
    let mut i: usize = 1;
    while i < system.len()
        invariant
            1 <= i <= system.len(),
            rooted(system@),
            forall|x: int|
                1 <= x < i ==> moons(system@, #[trigger] parent_of(system@, x)).contains(x as usize),
        decreases system.len() - i,
    {
        assert(system[i as int].orbit is Some);
        match system[i].orbit {
            Some(orbit) => {
                if !listed(&system[orbit.parent_index].moon_indices, i) {
                    assert(!moons(system@, parent_of(system@, i as int)).contains(i as usize));
                    return false;
                }
            },
            None => {},
        }
        i += 1;
    }
    true
}

/// Decides `tree_wf`.
pub fn is_tree_wf(system: &Vec<Planet>) -> (r: bool)
    ensures
        r == tree_wf(system@),
{
    is_rooted(system) && are_moons_owned(system) && are_moons_complete(system)
}

/// Decides `populated`.
pub fn is_populated(system: &Vec<Planet>) -> (r: bool)
    ensures
        r == populated(system@),
{
    let stations = station_indices(system);
    let ores = ore_indices(system);
    let r = stations.len() >= 2 && ores.len() >= 1;
    proof {
        assert(system@.len() == system.len());
        if r {
            let a = stations[0] as int;
            let b = stations[1] as int;
            let c = ores[0] as int;
            assert(a < b);
            assert(system@[a].is_station() && system@[b].is_station());
            assert(system@[c].is_ore());
        } else if populated(system@) {
            let (a, b) = choose|a: int, b: int|
                0 <= a < b < system@.len() && (#[trigger] system@[a]).is_station() && (
                #[trigger] system@[b]).is_station();
            let c = choose|c: int| 0 <= c < system@.len() && (#[trigger] system@[c]).is_ore();
            assert(stations@.contains(a as usize));
            assert(stations@.contains(b as usize));
            assert(ores@.contains(c as usize));
            let ja = choose|j: int| 0 <= j < stations@.len() && stations@[j] == a as usize;
            let jb = choose|j: int| 0 <= j < stations@.len() && stations@[j] == b as usize;
            assert(ja != jb);
        }
    }
    r
}

/// Decides `ship_wf`.
pub fn is_ship_wf(system: &Vec<Planet>, ships: &Vec<Ship>, config: &SimConfig, ship: &Ship) -> (r: bool)
    requires
        config.wf(),
    ensures
        r == ship_wf(system@, ships@, *config, *ship),
{
    match (ship.job, ship.goal) {
        (ShipJob::Miner, ShipGoal::Visit { target }) => target < system.len()
            && system[target].feat.is_some(),
        (ShipJob::Miner, ShipGoal::Wait { target, progress }) => target < system.len() && progress
            <= config.harvest_duration as isize,
        (ShipJob::Trader { .. }, ShipGoal::Visit { target }) => {
            if target < system.len() {
                match system[target].feat {
                    Some(feature) => feature.is_same_kind(
                        &PlanetFeature::Station { stock: 0 },
                    ),
                    None => false,
                }
            } else {
                false
            }
        },
        (ShipJob::Pirate, ShipGoal::Wander) => true,
        (ShipJob::Pirate, ShipGoal::Scan) => true,
        (ShipJob::Pirate, ShipGoal::Hunt { prey, progress }) => {
            if prey < ships.len() {
                let hunted = match ships[prey].job {
                    ShipJob::Trader { .. } => true,
                    _ => false,
                };
                hunted && progress <= config.raid_duration as isize + 1
            } else {
                false
            }
        },
        _ => false,
    }
}

impl Simulation {
    /// Whether the simulation can be ticked: it is in a state that the rules
    /// know, the registry has room for a trader from every body, and every
    /// station has room for a unit from every ship.
    pub open spec fn ready_for_tick(&self) -> bool {
        &&& self.wf()
        &&& self.ships.len() + self.system.len() <= usize::MAX
        &&& room(self@.system, self.ships.len() + self.system.len())
    }

    /// Decides whether every station can take `units` more units.
    pub fn has_room(&self, units: usize) -> (r: bool)
        ensures
            r == room(self@.system, units as int),
    {
        let mut b: usize = 0;
        while b < self.system.len()
            invariant
                b <= self.system.len(),
                forall|x: int| 0 <= x < b ==> (#[trigger] self.system@[x]).stock() + units <= usize::MAX,
            decreases self.system.len() - b,
        {
            match self.system[b].feat {
                Some(PlanetFeature::Station { stock }) => {
                    if stock > usize::MAX - units {
                        assert(self@.system[b as int].stock() + units > usize::MAX);
                        return false;
                    }
                },
                _ => {},
            }
            b += 1;
        }
        true
    }

    /// Decides `ready_for_tick`.
    pub fn can_update(&self) -> (r: bool)
        ensures
            r == self.ready_for_tick(),
    {
        if !self.is_wf() {
            return false;
        }
        match self.ships.len().checked_add(self.system.len()) {
            Some(turns) => self.has_room(turns),
            None => false,
        }
    }

    /// Decides `wf`: whether the simulation is in a state that the rules
    /// know. A state that is not must not be ticked.
    pub fn is_wf(&self) -> (r: bool)
        ensures
            r == self.wf(),
    {
        if !self.config.is_wf() {
            return false;
        }
        if !is_tree_wf(&self.system) || !is_populated(&self.system) {
            return false;
        }
        let mut i: usize = 0;
        while i < self.ships.len()
            invariant
                i <= self.ships.len(),
                self.config.wf(),
                forall|x: int|
                    0 <= x < i ==> ship_wf(
                        self.system@,
                        self.ships@,
                        self.config,
                        #[trigger] self.ships@[x],
                    ),
            decreases self.ships.len() - i,
        {
            if !is_ship_wf(&self.system, &self.ships, &self.config, &self.ships[i]) {
                assert(!ship_wf(self.system@, self.ships@, self.config, self.ships@[i as int]));
                return false;
            }
            i += 1;
        }
        let mut k: usize = 0;
        while k < self.killed.len()
            invariant
                k <= self.killed.len(),
                self.config.wf(),
                tree_wf(self.system@),
                populated(self.system@),
                forall|x: int|
                    0 <= x < self.ships.len() ==> ship_wf(
                        self.system@,
                        self.ships@,
                        self.config,
                        #[trigger] self.ships@[x],
                    ),
                forall|x: int| 0 <= x < k ==> (#[trigger] self.killed@[x]) < self.ships.len(),
                forall|x: int, y: int|
                    0 <= x < y < k ==> (#[trigger] self.killed@[x]) != (#[trigger] self.killed@[y]),
            decreases self.killed.len() - k,
        {
            if self.killed[k] >= self.ships.len() {
                assert(!(self@.killed[k as int] < self@.ships.len()));
                return false;
            }
            let mut j: usize = 0;
            while j < k
                invariant
                    j <= k < self.killed.len(),
                    self.config.wf(),
                    tree_wf(self.system@),
                    populated(self.system@),
                    forall|x: int| 0 <= x < j ==> (#[trigger] self.killed@[x]) != self.killed@[k as int],
                decreases k - j,
            {
                if self.killed[j] == self.killed[k] {
                    assert(self@.killed[j as int] == self@.killed[k as int]);
                    return false;
                }
                j += 1;
            }
            k += 1;
        }
        proof {
            assert(self@.system.len() == self.system.len());
            assert(self@.ships.len() == self.ships.len());
            assert forall|x: int| 0 <= x < self@.ships.len() implies ship_wf(
                self@.system,
                self@.ships,
                self.config,
                #[trigger] self@.ships[x],
            ) by {
                assert(ship_wf(self.system@, self.ships@, self.config, self.ships@[x]));
            }
            assert(self@.wf(self.config));
        }
        true
    }
}

} // verus!
