//! The goal state machine: what a ship does on its turn, given what it saw.

use vstd::prelude::*;
use vstd::pervasive::unreached;
use rand::rngs::StdRng;
use crate::config::{SimConfig, Span};
use crate::feature::PlanetFeature;
use crate::query::{
    is_nearest, lemma_first_ranked_is_nearest, nearest_with_feature, selects, station_indices,
};
use crate::random::{choose_below, flip};
use crate::ship::{ShipGoal, ShipJob};
use crate::simulation::Simulation;
use crate::world::{
    World, lemma_condemn_wf, lemma_rehire_wf, lemma_restock_wf, lemma_retask_wf, room, ship_wf,
};

verus! {

/// What geometry tells about one ship after it has moved in a tick.
#[derive(Debug)]
pub struct Sighting {
    /// The ship's step crossed the rim of the body it is visiting.
    pub arrived: bool,
    /// The ship's prey is within raid range.
    pub prey_in_range: bool,
    /// For every body, a key that ranks its distance from the ship.
    pub body_keys: Vec<u64>,
    /// For every ship, whether it is within the ship's detection range.
    pub ships_in_sight: Vec<bool>,
}

/// A sighting as a value.
pub struct Seen {
    pub arrived: bool,
    pub prey_in_range: bool,
    pub body_keys: Seq<u64>,
    pub ships_in_sight: Seq<bool>,
}

impl View for Sighting {
    type V = Seen;

    open spec fn view(&self) -> Seen {
        Seen {
            arrived: self.arrived,
            prey_in_range: self.prey_in_range,
            body_keys: self.body_keys@,
            ships_in_sight: self.ships_in_sight@,
        }
    }
}

impl Seen {
    /// Whether ship `t` is in sight; a ship that the sighting does not cover
    /// is not.
    pub open spec fn sees(self, t: int) -> bool {
        0 <= t < self.ships_in_sight.len() && self.ships_in_sight[t]
    }

    /// The sighting of a ship that has neither arrived nor seen anything.
    pub open spec fn quiet() -> Seen {
        Seen {
            arrived: false,
            prey_in_range: false,
            body_keys: Seq::empty(),
            ships_in_sight: Seq::empty(),
        }
    }
}

impl Sighting {
    /// Decides `sees`.
    pub fn in_sight(&self, t: usize) -> (r: bool)
        ensures
            r == self@.sees(t as int),
    {
        t < self.ships_in_sight.len() && self.ships_in_sight[t]
    }

    /// The sighting of a ship that has neither arrived nor seen anything.
    pub fn quiet() -> (sighting: Sighting)
        ensures
            sighting@ == Seen::quiet(),
    {
        Sighting {
            arrived: false,
            prey_in_range: false,
            body_keys: Vec::new(),
            ships_in_sight: Vec::new(),
        }
    }
}

/// The station filter.
pub open spec fn any_station() -> Option<PlanetFeature> {
    Some(PlanetFeature::Station { stock: 0 })
}

/// The ore filter.
pub open spec fn any_ore() -> Option<PlanetFeature> {
    Some(PlanetFeature::Ore)
}

impl World {
    /// The body that ship `i` visits or waits at.
    pub open spec fn target_of(self, i: int) -> int {
        match self.ships[i].goal {
            ShipGoal::Visit { target } => target as int,
            ShipGoal::Wait { target, .. } => target as int,
            _ => 0,
        }
    }

    /// Whether a trader that has reached `target` may go on to `dest`: to
    /// another station.
    pub open spec fn trade_route(self, target: int, dest: int) -> bool {
        0 <= dest < self.system.len() && self.system[dest].is_station() && dest != target
    }

    /// A trader has reached its station and goes on to `dest`. With cargo it
    /// unloads one unit. Without, it loads one if this station holds more
    /// than `dest` does.
    pub open spec fn trade(self, i: int, dest: int) -> World {
        let target = self.target_of(i);
        let here = self.system[target].stock();
        let onward = ShipGoal::Visit { target: dest as usize };
        if self.ships[i].carries() {
            self.restock(target, here + 1).rehire(i, ShipJob::Trader { cargo: false }).retask(
                i,
                onward,
            )
        } else if here > self.system[dest].stock() {
            self.restock(target, here - 1).rehire(i, ShipJob::Trader { cargo: true }).retask(
                i,
                onward,
            )
        } else {
            self.retask(i, onward)
        }
    }

    /// A miner has reached a station: it unloads one unit and heads for the
    /// body `next`.
    pub open spec fn deliver(self, i: int, next: int) -> World {
        let target = self.target_of(i);
        self.restock(target, self.system[target].stock() + 1).retask(
            i,
            ShipGoal::Visit { target: next as usize },
        )
    }

    /// Whether ship `t` is a trader with cargo that the sighting has in view.
    pub open spec fn is_prey(self, sighting: Seen, t: int) -> bool {
        0 <= t < self.ships.len() && self.ships[t].carries() && sighting.sees(t)
    }

    /// A raid on `prey` ends: the prey loses its cargo, goes on the removal
    /// list if the roll says so, and the pirate wanders off.
    pub open spec fn raid(self, i: int, prey: int, roll: bool) -> World {
        let marked = if roll {
            self.condemn(prey)
        } else {
            self
        };
        marked.strip(prey).retask(i, ShipGoal::Wander)
    }

    /// Whether `post` may follow from this world when ship `i` has completed
    /// its goal. Random choices are free within what the rules allow; all
    /// else is fixed.
    pub open spec fn arrives(self, config: SimConfig, i: int, sighting: Seen, post: World) -> bool {
        match (self.ships[i].job, self.ships[i].goal) {
            (ShipJob::Trader { .. }, ShipGoal::Visit { target }) => {
                &&& post.ships[i].goal matches ShipGoal::Visit { target: dest }
                &&& self.trade_route(target as int, dest as int)
                &&& post == self.trade(i, dest as int)
            },
            (ShipJob::Miner, ShipGoal::Visit { target }) => if self.system[target as int].is_station() {
                &&& post.ships[i].goal matches ShipGoal::Visit { target: next }
                &&& is_nearest(self.system, any_ore(), sighting.body_keys, next as int)
                &&& post == self.deliver(i, next as int)
            } else {
                &&& post.ships[i].goal matches ShipGoal::Wait { target: site, progress }
                &&& site == target
                &&& config.harvest_variance.start <= progress < config.harvest_variance.end
                &&& post == self.retask(i, ShipGoal::Wait { target, progress })
            },
            (ShipJob::Miner, ShipGoal::Wait { .. }) => {
                &&& post.ships[i].goal matches ShipGoal::Visit { target: next }
                &&& is_nearest(self.system, any_station(), sighting.body_keys, next as int)
                &&& post == self.retask(i, ShipGoal::Visit { target: next })
            },
            (ShipJob::Pirate, ShipGoal::Wander) => post == self.retask(i, ShipGoal::Scan),
            (ShipJob::Pirate, ShipGoal::Scan) => if exists|t: int| self.is_prey(sighting, t) {
                &&& post.ships[i].goal matches ShipGoal::Hunt { prey, progress }
                &&& self.is_prey(sighting, prey as int)
                &&& config.raid_variance.start <= progress < config.raid_variance.end
                &&& post == self.retask(i, ShipGoal::Hunt { prey, progress })
            } else {
                post == self.retask(i, ShipGoal::Wander)
            },
            (ShipJob::Pirate, ShipGoal::Hunt { prey, .. }) => post == self.raid(i, prey as int, false),
            _ => post == self,
        }
    }

    /// Whether `post` may follow from this world when ship `i` takes its turn
    /// in a tick, having seen `sighting`.
    pub open spec fn steps(self, config: SimConfig, i: int, sighting: Seen, post: World) -> bool {
        match self.ships[i].goal {
            ShipGoal::Visit { .. } => if sighting.arrived {
                self.arrives(config, i, sighting, post)
            } else {
                post == self
            },
            ShipGoal::Wait { target, progress } => if progress == config.harvest_duration {
                self.arrives(config, i, sighting, post)
            } else {
                post == self.retask(i, ShipGoal::Wait { target, progress: (progress + 1) as isize })
            },
            ShipGoal::Wander => self.arrives(config, i, sighting, post),
            ShipGoal::Scan => self.arrives(config, i, sighting, post),
            ShipGoal::Hunt { prey, progress } => if !self.ships[prey as int].carries() {
                self.arrives(config, i, sighting, post)
            } else if !sighting.prey_in_range {
                post == self.retask(i, ShipGoal::Wander)
            } else if progress > config.raid_duration {
                ||| post == self.raid(i, prey as int, true) && config.death_prob.numerator != 0
                ||| post == self.raid(i, prey as int, false) && config.death_prob.numerator
                    != config.death_prob.denominator
            } else {
                post == self.retask(i, ShipGoal::Hunt { prey, progress: (progress + 1) as isize })
            },
        }
    }

    /// The ship that ship `i` holds at its initial speed this tick: the prey
    /// that it hunts, if the prey has cargo and is within raid range.
    pub open spec fn holds(self, i: int, sighting: Seen) -> Option<usize> {
        match self.ships[i].goal {
            ShipGoal::Hunt { prey, .. } => if self.ships[prey as int].carries()
                && sighting.prey_in_range {
                Some(prey)
            } else {
                None
            },
            _ => None,
        }
    }
}

/// Draws where a counter starts: a member of `span`, through `choose_below`.
pub fn draw_start(prng: &mut StdRng, span: Span) -> (start: isize)
    requires
        span.start < span.end,
    ensures
        span.start <= start < span.end,
{
    let width = (span.end as i128 - span.start as i128) as usize;
    match choose_below(prng, width) {
        Some(offset) => (span.start as i128 + offset as i128) as isize,
        None => unreached(),
    }
}

/// Whether `x` stands in `list`.
pub fn listed(list: &Vec<usize>, x: usize) -> (r: bool)
    ensures
        r == list@.contains(x),
{
    let mut j: usize = 0;
    while j < list.len()
        invariant
            j <= list.len(),
            forall|k: int| 0 <= k < j ==> list[k] != x,
        decreases list.len() - j,
    {
        if list[j] == x {
            return true;
        }
        j += 1;
    }
    false
}

impl Simulation {
    /// The stock of the station on body `b`.
    pub fn stock_at(&self, b: usize) -> (stock: usize)
        requires
            b < self.system.len(),
            self.system[b as int].is_station(),
        ensures
            stock == self.system[b as int].stock(),
    {
        match self.system[b].feat {
            Some(PlanetFeature::Station { stock }) => stock,
            _ => unreached(),
        }
    }

    fn set_stock(&mut self, b: usize, stock: usize)
        requires
            b < old(self).system.len(),
        ensures
            final(self)@ == old(self)@.restock(b as int, stock as int),
            final(self).config == old(self).config,
    {
        self.system[b].feat = Some(PlanetFeature::Station { stock });
        assert(self@.system =~= old(self)@.restock(b as int, stock as int).system);
    }

    fn set_goal(&mut self, i: usize, goal: ShipGoal)
        requires
            i < old(self).ships.len(),
        ensures
            final(self)@ == old(self)@.retask(i as int, goal),
            final(self).config == old(self).config,
    {
        self.ships[i].goal = goal;
        assert(self@.ships =~= old(self)@.retask(i as int, goal).ships);
    }

    fn set_job(&mut self, i: usize, job: ShipJob)
        requires
            i < old(self).ships.len(),
        ensures
            final(self)@ == old(self)@.rehire(i as int, job),
            final(self).config == old(self).config,
    {
        self.ships[i].job = job;
        assert(self@.ships =~= old(self)@.rehire(i as int, job).ships);
    }

    /// The stations other than `target`, ascending.
    pub fn other_stations(&self, target: usize) -> (others: Vec<usize>)
        ensures
            forall|j: int|
                0 <= j < others.len() ==> self@.trade_route(target as int, #[trigger] others[j] as int),
            forall|x: int| self@.trade_route(target as int, x) ==> others@.contains(x as usize),
            forall|a: int, b: int| 0 <= a < b < others.len() ==> others[a] < others[b],
    {
        let stations = station_indices(&self.system);
        let mut others: Vec<usize> = Vec::new();
        let mut j: usize = 0;
        while j < stations.len()
            invariant
                j <= stations.len(),
                selects(self.system@, any_station(), stations@),
                forall|k: int|
                    0 <= k < others.len() ==> self@.trade_route(
                        target as int,
                        #[trigger] others[k] as int,
                    ) && (j < stations.len() ==> others[k] < stations[j as int]) && (j > 0
                        ==> others[k] <= stations[j - 1]),
                forall|k: int|
                    0 <= k < j && stations[k] != target ==> others@.contains(#[trigger] stations[k]),
                forall|a: int, b: int| 0 <= a < b < others.len() ==> others[a] < others[b],
            decreases stations.len() - j,
        {
            if stations[j] != target {
                let ghost before = others@;
                others.push(stations[j]);
                assert(others@[before.len() as int] == stations[j as int]);
                assert forall|k: int| 0 <= k < j + 1 && stations[k] != target implies others@.contains(
                    #[trigger] stations[k],
                ) by {
                    if k < j {
                        let at = choose|at: int| 0 <= at < before.len() && before[at] == stations[k];
                        assert(others@[at] == stations[k]);
                    }
                }
            }
            j += 1;
        }
        assert forall|x: int| self@.trade_route(target as int, x) implies others@.contains(
            x as usize,
        ) by {
            assert(self.system@.len() == self.system.len());
            assert(self.system@[x].is_station());
            assert(stations@.contains(x as usize));
            let k = choose|k: int| 0 <= k < stations.len() && stations[k] == x as usize;
            assert(others@.contains(stations[k]));
        }
        others
    }

    /// A trader that has reached its station unloads or loads there and goes
    /// on to the station `dest`.
    pub fn trader_arrives(&mut self, ship_index: usize, dest: usize)
        requires
            old(self).wf(),
            ship_index < old(self).ships.len(),
            old(self).ships[ship_index as int].job is Trader,
            old(self).ships[ship_index as int].goal is Visit,
            old(self)@.trade_route(old(self)@.target_of(ship_index as int), dest as int),
            room(old(self)@.system, 1),
        ensures
            final(self)@ == old(self)@.trade(ship_index as int, dest as int),
            final(self).config == old(self).config,
            final(self).wf(),
    {
        let ghost w0 = self@;
        let ghost config = self.config;
        let onward = ShipGoal::Visit { target: dest };
        proof {
            assert(ship_wf(w0.system, w0.ships, config, w0.ships[ship_index as int]));
        }
        let target = match self.ships[ship_index].goal {
            ShipGoal::Visit { target } => target,
            _ => unreached(),
        };
        let here = self.stock_at(target);
        let cargo = self.ships[ship_index].has_cargo();
        if cargo {
            self.set_stock(target, here + 1);
            proof {
                lemma_restock_wf(w0, config, target as int, here + 1);
            }
            let ghost w1 = self@;
            self.set_job(ship_index, ShipJob::Trader { cargo: false });
            proof {
                lemma_rehire_wf(w1, config, ship_index as int, false);
                lemma_retask_wf(self@, config, ship_index as int, onward);
            }
            self.set_goal(ship_index, onward);
        } else if here > self.stock_at(dest) {
            self.set_stock(target, here - 1);
            proof {
                lemma_restock_wf(w0, config, target as int, here - 1);
            }
            let ghost w1 = self@;
            self.set_job(ship_index, ShipJob::Trader { cargo: true });
            proof {
                lemma_rehire_wf(w1, config, ship_index as int, true);
                lemma_retask_wf(self@, config, ship_index as int, onward);
            }
            self.set_goal(ship_index, onward);
        } else {
            proof {
                lemma_retask_wf(w0, config, ship_index as int, onward);
            }
            self.set_goal(ship_index, onward);
        }
    }

    /// A miner that has reached a station unloads one unit there and heads
    /// for the body `next`.
    pub fn miner_delivers(&mut self, ship_index: usize, next: usize)
        requires
            old(self).wf(),
            ship_index < old(self).ships.len(),
            old(self).ships[ship_index as int].job is Miner,
            old(self).ships[ship_index as int].goal is Visit,
            old(self).system[old(self)@.target_of(ship_index as int)].is_station(),
            next < old(self).system.len(),
            old(self).system[next as int].feat is Some,
            room(old(self)@.system, 1),
        ensures
            final(self)@ == old(self)@.deliver(ship_index as int, next as int),
            final(self).config == old(self).config,
            final(self).wf(),
    {
        let ghost w0 = self@;
        let ghost config = self.config;
        let onward = ShipGoal::Visit { target: next };
        proof {
            assert(ship_wf(w0.system, w0.ships, config, w0.ships[ship_index as int]));
        }
        let target = match self.ships[ship_index].goal {
            ShipGoal::Visit { target } => target,
            _ => unreached(),
        };
        let here = self.stock_at(target);
        self.set_stock(target, here + 1);
        proof {
            lemma_restock_wf(w0, config, target as int, here + 1);
            assert(self@.system[next as int].feat is Some);
            lemma_retask_wf(self@, config, ship_index as int, onward);
        }
        self.set_goal(ship_index, onward);
    }

    /// The raid of pirate `ship_index` ends: its prey loses its cargo, goes
    /// on the removal list if `roll` says so and it is not there yet, and the
    /// pirate wanders off.
    pub fn raid_ends(&mut self, ship_index: usize, roll: bool)
        requires
            old(self).wf(),
            ship_index < old(self).ships.len(),
            old(self).ships[ship_index as int].job is Pirate,
            old(self).ships[ship_index as int].goal is Hunt,
        ensures
            final(self)@ == old(self)@.raid(
                ship_index as int,
                old(self).ships[ship_index as int].goal->prey as int,
                roll,
            ),
            final(self).config == old(self).config,
            final(self).wf(),
    {
        let ghost w0 = self@;
        let ghost config = self.config;
        proof {
            assert(ship_wf(w0.system, w0.ships, config, w0.ships[ship_index as int]));
        }
        let prey = match self.ships[ship_index].goal {
            ShipGoal::Hunt { prey, .. } => prey,
            _ => unreached(),
        };
        if roll && !listed(&self.killed, prey) {
            self.killed.push(prey);
        }
        proof {
            if roll {
                lemma_condemn_wf(w0, config, prey as int);
                assert(self@.killed =~= w0.condemn(prey as int).killed);
            }
        }
        let ghost w1 = self@;
        match self.ships[prey].job {
            ShipJob::Trader { .. } => {
                self.set_job(prey, ShipJob::Trader { cargo: false });
                proof {
                    lemma_rehire_wf(w1, config, prey as int, false);
                }
            },
            _ => {},
        }
        proof {
            lemma_retask_wf(self@, config, ship_index as int, ShipGoal::Wander);
        }
        self.set_goal(ship_index, ShipGoal::Wander);
    }

    /// The traders with cargo that the sighting has in view, ascending.
    pub fn prey_in_sight(&self, sighting: &Sighting) -> (found: Vec<usize>)
        ensures
            forall|j: int| 0 <= j < found.len() ==> self@.is_prey(sighting@, #[trigger] found[j] as int),
            forall|t: int| self@.is_prey(sighting@, t) ==> found@.contains(t as usize),
            forall|a: int, b: int| 0 <= a < b < found.len() ==> found[a] < found[b],
    {
        let mut found: Vec<usize> = Vec::new();
        let mut t: usize = 0;
        while t < self.ships.len()
            invariant
                t <= self.ships.len(),
                forall|j: int|
                    0 <= j < found.len() ==> self@.is_prey(sighting@, #[trigger] found[j] as int)
                        && found[j] < t,
                forall|x: int| 0 <= x < t && self@.is_prey(sighting@, x) ==> found@.contains(x as usize),
                forall|a: int, b: int| 0 <= a < b < found.len() ==> found[a] < found[b],
            decreases self.ships.len() - t,
        {
            if self.ships[t].has_cargo() && sighting.in_sight(t) {
                let ghost before = found@;
                found.push(t);
                assert(found@[before.len() as int] == t);
                assert forall|x: int| 0 <= x < t + 1 && self@.is_prey(sighting@, x) implies found@.contains(
                    x as usize,
                ) by {
                    if x < t {
                        let at = choose|at: int| 0 <= at < before.len() && before[at] == x as usize;
                        assert(found@[at] == x as usize);
                    }
                }
            }
            t += 1;
        }
        found
    }

    /// Gives ship `ship_index` its next goal, its present one being complete.
    /// A trader unloads or loads and picks another station at random. A miner
    /// at a station unloads and heads for the nearest ore; at an ore body it
    /// starts to wait, from a random start; done waiting, it heads for the
    /// nearest station. A pirate scans after wandering, hunts a random trader
    /// in sight after scanning or wanders if there is none, and after a hunt
    /// strips its prey and wanders.
    pub fn update_ship_goal(&mut self, ship_index: usize, sighting: &Sighting)
        requires
            old(self).wf(),
            ship_index < old(self).ships.len(),
            room(old(self)@.system, 1),
        ensures
            old(self)@.arrives(old(self).config, ship_index as int, sighting@, final(self)@),
            final(self).config == old(self).config,
            final(self).wf(),
    {
        let ghost w0 = self@;
        let ghost config = self.config;
        proof {
            assert(ship_wf(w0.system, w0.ships, config, w0.ships[ship_index as int]));
        }
        let job = self.ships[ship_index].job;
        let goal = self.ships[ship_index].goal;
        match (job, goal) {
            (ShipJob::Trader { .. }, ShipGoal::Visit { target }) => {
                let others = self.other_stations(target);
                proof {
                    let (a, b) = choose|a: int, b: int|
                        0 <= a < b < w0.system.len() && (#[trigger] w0.system[a]).is_station() && (
                        #[trigger] w0.system[b]).is_station();
                    let x = if a == target {
                        b
                    } else {
                        a
                    };
                    assert(w0.trade_route(target as int, x));
                    assert(others@.contains(x as usize));
                }
                match choose_below(&mut self.prng, others.len()) {
                    Some(k) => {
                        let dest = others[k];
                        self.trader_arrives(ship_index, dest);
                    },
                    None => unreached(),
                }
            },
            (ShipJob::Miner, ShipGoal::Visit { target }) => {
                match self.system[target].feat {
                    Some(PlanetFeature::Station { .. }) => {
                        let ores = nearest_with_feature(
                            &self.system,
                            Some(PlanetFeature::Ore),
                            &sighting.body_keys,
                        );
                        proof {
                            let c = choose|c: int|
                                0 <= c < w0.system.len() && (#[trigger] w0.system[c]).is_ore();
                            assert(ores@.contains(c as usize));
                            lemma_first_ranked_is_nearest(
                                w0.system,
                                any_ore(),
                                sighting.body_keys@,
                                ores@,
                            );
                        }
                        let next = ores[0];
                        self.miner_delivers(ship_index, next);
                    },
                    Some(PlanetFeature::Ore) => {
                        let progress = draw_start(&mut self.prng, self.config.harvest_variance);
                        let waiting = ShipGoal::Wait { target, progress };
                        proof {
                            lemma_retask_wf(w0, config, ship_index as int, waiting);
                        }
                        self.set_goal(ship_index, waiting);
                    },
                    None => unreached(),
                }
            },
            (ShipJob::Miner, ShipGoal::Wait { .. }) => {
                let stations = nearest_with_feature(
                    &self.system,
                    Some(PlanetFeature::Station { stock: 0 }),
                    &sighting.body_keys,
                );
                proof {
                    let (a, b) = choose|a: int, b: int|
                        0 <= a < b < w0.system.len() && (#[trigger] w0.system[a]).is_station() && (
                        #[trigger] w0.system[b]).is_station();
                    assert(stations@.contains(a as usize));
                    lemma_first_ranked_is_nearest(
                        w0.system,
                        any_station(),
                        sighting.body_keys@,
                        stations@,
                    );
                }
                let onward = ShipGoal::Visit { target: stations[0] };
                proof {
                    lemma_retask_wf(w0, config, ship_index as int, onward);
                }
                self.set_goal(ship_index, onward);
            },
            (ShipJob::Pirate, ShipGoal::Wander) => {
                proof {
                    lemma_retask_wf(w0, config, ship_index as int, ShipGoal::Scan);
                }
                self.set_goal(ship_index, ShipGoal::Scan);
            },
            (ShipJob::Pirate, ShipGoal::Scan) => {
                let found = self.prey_in_sight(sighting);
                match choose_below(&mut self.prng, found.len()) {
                    Some(k) => {
                        let prey = found[k];
                        let progress = draw_start(&mut self.prng, self.config.raid_variance);
                        let hunting = ShipGoal::Hunt { prey, progress };
                        proof {
                            assert(w0.is_prey(sighting@, prey as int));
                            lemma_retask_wf(w0, config, ship_index as int, hunting);
                        }
                        self.set_goal(ship_index, hunting);
                    },
                    None => {
                        proof {
                            assert forall|t: int| !w0.is_prey(sighting@, t) by {
                                if w0.is_prey(sighting@, t) {
                                    assert(found@.contains(t as usize));
                                }
                            }
                            lemma_retask_wf(w0, config, ship_index as int, ShipGoal::Wander);
                        }
                        self.set_goal(ship_index, ShipGoal::Wander);
                    },
                }
            },
            (ShipJob::Pirate, ShipGoal::Hunt { .. }) => {
                self.raid_ends(ship_index, false);
            },
            _ => {},
        }
    }

    /// Lets ship `ship_index` take its turn in a tick, given what it saw
    /// after moving. A visit completes on arrival. A wait counts one tick and
    /// completes when the counter has reached the harvest duration. Wandering
    /// and scanning always complete. A hunt is given up for a prey without
    /// cargo and broken off when the prey is out of range; in range it counts
    /// one tick, and once the counter exceeds the raid duration the raid ends
    /// with a roll for the prey's life. Returns the ship that is to be held
    /// at its initial speed.
    pub fn update_ship(&mut self, ship_index: usize, sighting: &Sighting) -> (held: Option<usize>)
        requires
            old(self).wf(),
            ship_index < old(self).ships.len(),
            room(old(self)@.system, 1),
        ensures
            old(self)@.steps(old(self).config, ship_index as int, sighting@, final(self)@),
            held == old(self)@.holds(ship_index as int, sighting@),
            final(self).config == old(self).config,
            final(self).wf(),
    {
        let ghost w0 = self@;
        let ghost config = self.config;
        proof {
            assert(ship_wf(w0.system, w0.ships, config, w0.ships[ship_index as int]));
        }
        match self.ships[ship_index].goal {
            ShipGoal::Visit { .. } => {
                if sighting.arrived {
                    self.update_ship_goal(ship_index, sighting);
                }
                None
            },
            ShipGoal::Wait { target, progress } => {
                if progress == self.config.harvest_duration as isize {
                    self.update_ship_goal(ship_index, sighting);
                } else {
                    let waiting = ShipGoal::Wait { target, progress: progress + 1 };
                    proof {
                        lemma_retask_wf(w0, config, ship_index as int, waiting);
                    }
                    self.set_goal(ship_index, waiting);
                }
                None
            },
            ShipGoal::Wander => {
                self.update_ship_goal(ship_index, sighting);
                None
            },
            ShipGoal::Scan => {
                self.update_ship_goal(ship_index, sighting);
                None
            },
            ShipGoal::Hunt { prey, progress } => {
                if !self.ships[prey].has_cargo() {
                    self.update_ship_goal(ship_index, sighting);
                    None
                } else if !sighting.prey_in_range {
                    proof {
                        lemma_retask_wf(w0, config, ship_index as int, ShipGoal::Wander);
                    }
                    self.set_goal(ship_index, ShipGoal::Wander);
                    None
                } else {
                    if progress > self.config.raid_duration as isize {
                        let roll = flip(
                            &mut self.prng,
                            self.config.death_prob.numerator,
                            self.config.death_prob.denominator,
                        );
                        self.raid_ends(ship_index, roll);
                    } else {
                        let hunting = ShipGoal::Hunt { prey, progress: progress + 1 };
                        proof {
                            lemma_retask_wf(w0, config, ship_index as int, hunting);
                        }
                        self.set_goal(ship_index, hunting);
                    }
                    Some(prey)
                }
            },
        }
    }
}

} // verus!
