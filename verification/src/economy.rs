//! Stations that build traders.

use vstd::prelude::*;
use crate::config::SimConfig;
use crate::feature::PlanetFeature;
use crate::planet::Planet;
use crate::ship::{Ship, ShipGoal, ShipJob};
use crate::simulation::Simulation;
use crate::laws::{lemma_cargo_sum_push, lemma_restock_units};
use crate::world::{World, lemma_restock_wf, ship_wf};

verus! {

/// Whether a body builds a trader this tick: it carries a station whose stock
/// exceeds the cost of a ship.
pub open spec fn builds(planet: Planet, config: SimConfig) -> bool {
    planet.is_station() && planet.stock() > config.ship_cost
}

/// A body that has built a trader: its station has paid the cost.
pub open spec fn after_building(planet: Planet, config: SimConfig) -> Planet {
    Planet {
        orbit: planet.orbit,
        feat: Some(PlanetFeature::Station { stock: (planet.stock() - config.ship_cost) as usize }),
        moon_indices: planet.moon_indices,
    }
}

/// The trader that the station on body `b` builds: empty, and bound for the
/// station it stands on.
pub open spec fn fresh_trader(b: usize) -> Ship {
    Ship { goal: ShipGoal::Visit { target: b }, job: ShipJob::Trader { cargo: false } }
}

impl World {
    /// Whether `post` is this world after the stations have built their
    /// traders, and `built` the bodies that built one, ascending. The new
    /// traders join the registry in that order.
    pub open spec fn spawns(self, config: SimConfig, built: Seq<usize>, post: World) -> bool {
        &&& post.killed == self.killed
        &&& post.system.len() == self.system.len()
        &&& built.len() <= self.system.len()
        &&& forall|b: int|
            0 <= b < self.system.len() ==> #[trigger] post.system[b] == if builds(
                self.system[b],
                config,
            ) {
                after_building(self.system[b], config)
            } else {
                self.system[b]
            }
        &&& forall|a: int, c: int| 0 <= a < c < built.len() ==> built[a] < built[c]
        &&& forall|j: int|
            0 <= j < built.len() ==> (#[trigger] built[j]) < self.system.len() && builds(
                self.system[built[j] as int],
                config,
            )
        &&& forall|b: int|
            0 <= b < self.system.len() && builds(#[trigger] self.system[b], config)
                ==> built.contains(b as usize)
        &&& post.ships == self.ships + Seq::new(built.len(), |j: int| fresh_trader(built[j]))
        &&& post.units() == self.units() - built.len() * config.ship_cost
    }

    /// The world with one more ship at the end of the registry.
    pub open spec fn enlist(self, ship: Ship) -> World {
        World { ships: self.ships.push(ship), ..self }
    }
}

/// A ship in a state that the rules know may join a sound world.
pub proof fn lemma_enlist_wf(w: World, config: SimConfig, ship: Ship)
    requires
        w.wf(config),
        w.ships.len() < usize::MAX,
        ship_wf(w.system, w.ships, config, ship),
    ensures
        w.enlist(ship).wf(config),
{
    let v = w.enlist(ship);
    assert forall|i: int| 0 <= i < v.ships.len() implies ship_wf(
        v.system,
        v.ships,
        config,
        #[trigger] v.ships[i],
    ) by {
        if i < w.ships.len() {
            assert(ship_wf(w.system, w.ships, config, w.ships[i]));
            assert(v.ships[i] == w.ships[i]);
        }
        match v.ships[i].goal {
            ShipGoal::Hunt { prey, .. } => {
                assert(v.ships[prey as int] == w.ships[prey as int]);
            },
            _ => {},
        }
    }
}

impl Simulation {
    /// Lets body `b` build a trader if its station can pay for one, and says
    /// whether it did.
    pub fn build_trader(&mut self, b: usize) -> (built: bool)
        requires
            old(self).wf(),
            b < old(self).system.len(),
            old(self).ships.len() < usize::MAX,
        ensures
            built == builds(old(self).system[b as int], old(self).config),
            final(self)@ == if built {
                old(self)@.restock(
                    b as int,
                    old(self).system[b as int].stock() - old(self).config.ship_cost,
                ).enlist(fresh_trader(b))
            } else {
                old(self)@
            },
            final(self)@.units() == old(self)@.units() - if built {
                old(self).config.ship_cost as int
            } else {
                0
            },
            final(self).config == old(self).config,
            final(self).wf(),
    {
        let ghost w0 = self@;
        let ghost config = self.config;
        match self.system[b].feat {
            Some(PlanetFeature::Station { stock }) => {
                if stock > self.config.ship_cost {
                    self.system[b].feat = Some(
                        PlanetFeature::Station { stock: stock - self.config.ship_cost },
                    );
                    let ship = Ship {
                        goal: ShipGoal::Visit { target: b },
                        job: ShipJob::Trader { cargo: false },
                    };
                    self.ships.push(ship);
                    proof {
                        let w1 = w0.restock(b as int, stock - config.ship_cost);
                        lemma_restock_wf(w0, config, b as int, stock - config.ship_cost);
                        assert(self@.system =~= w1.system);
                        lemma_enlist_wf(w1, config, ship);
                        assert(self@ == w1.enlist(ship));
                        lemma_restock_units(w0, b as int, stock - config.ship_cost);
                        lemma_cargo_sum_push(w1.ships, ship);
                    }
                    true
                } else {
                    false
                }
            },
            _ => false,
        }
    }

    /// Lets every station whose stock exceeds the cost of a ship pay that
    /// cost and build a trader, which starts empty at the station and bound
    /// for it. Returns the bodies that built one, ascending.
    pub fn spawn_traders(&mut self) -> (built: Vec<usize>)
        requires
            old(self).wf(),
            old(self).ships.len() + old(self).system.len() <= usize::MAX,
        ensures
            old(self)@.spawns(old(self).config, built@, final(self)@),
            final(self).config == old(self).config,
            final(self).wf(),
    {
        let ghost w0 = self@;
        let ghost config = self.config;
        let mut built: Vec<usize> = Vec::new();
        let mut b: usize = 0;
        assert(self@.ships =~= w0.ships + Seq::new(0, |j: int| fresh_trader(built[j])));
        while b < self.system.len()
            invariant
                b <= self.system.len(),
                self.wf(),
                self.config == config,
                self@.killed == w0.killed,
                self@.system.len() == w0.system.len(),
                w0.ships.len() + w0.system.len() <= usize::MAX,
                built.len() <= b,
                forall|x: int|
                    0 <= x < b ==> #[trigger] self@.system[x] == if builds(w0.system[x], config) {
                        after_building(w0.system[x], config)
                    } else {
                        w0.system[x]
                    },
                forall|x: int| b <= x < w0.system.len() ==> #[trigger] self@.system[x] == w0.system[x],
                forall|a: int, c: int| 0 <= a < c < built.len() ==> built[a] < built[c],
                forall|j: int|
                    0 <= j < built.len() ==> (#[trigger] built[j]) < b && builds(
                        w0.system[built[j] as int],
                        config,
                    ),
                forall|x: int|
                    0 <= x < b && builds(#[trigger] w0.system[x], config) ==> built@.contains(
                        x as usize,
                    ),
                self@.ships == w0.ships + Seq::new(
                    built.len() as nat,
                    |j: int| fresh_trader(built[j]),
                ),
                self@.units() == w0.units() - built.len() * config.ship_cost,
            decreases self.system.len() - b,
        {
            let ghost w1 = self@;
            let ghost before = built@;
            if self.build_trader(b) {
                built.push(b);
                proof {
                    assert((before.len() + 1) * config.ship_cost == before.len() * config.ship_cost
                        + config.ship_cost) by (nonlinear_arith);
                    assert(built@[before.len() as int] == b);
                    assert(self@.ships =~= w0.ships + Seq::new(
                        built.len() as nat,
                        |j: int| fresh_trader(built[j]),
                    ));
                    assert forall|x: int|
                        0 <= x < b + 1 && builds(
                            #[trigger] w0.system[x],
                            config,
                        ) implies built@.contains(x as usize) by {
                        if x < b {
                            let at = choose|at: int|
                                0 <= at < before.len() && before[at] == x as usize;
                            assert(built@[at] == x as usize);
                        }
                    }
                }
            }
            b += 1;
        }
        built
    }
}

} // verus!
