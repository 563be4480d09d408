//! Placing features on a built system and manning it with ships.

use vstd::prelude::*;
use vstd::pervasive::unreached;
use crate::feature::PlanetFeature;
use crate::planet::Planet;
use crate::query::ore_indices;
use crate::random::{choose_below, draw_in_range, flip};
use crate::economy::lemma_enlist_wf;
use crate::ship::{Ship, ShipGoal, ShipJob};
use crate::simulation::Simulation;
use crate::system::{lemma_features_apart, same_shape};

verus! {

/// Why a system cannot be settled.
#[derive(Clone, Copy, Debug, PartialEq, Eq, Structural)]
pub enum GenerationError {
    /// The system holds fewer than four bodies: the sun, two stations and an
    /// ore body need four.
    TooFewBodies,
}

/// A body with its feature replaced.
pub open spec fn with_feature(planet: Planet, feat: Option<PlanetFeature>) -> Planet {
    Planet { orbit: planet.orbit, feat, moon_indices: planet.moon_indices }
}

/// An empty station.
pub open spec fn new_station() -> Option<PlanetFeature> {
    Some(PlanetFeature::Station { stock: 0 })
}

/// The system with the features that no system may lack: a station on the
/// first body after the sun and on the last body, and ore on body `ore_at`.
pub open spec fn guaranteed(system: Seq<Planet>, ore_at: int) -> Seq<Planet> {
    let last = system.len() - 1;
    let first = system.update(1, with_feature(system[1], new_station()));
    let second = first.update(last, with_feature(first[last], new_station()));
    second.update(ore_at, with_feature(second[ore_at], Some(PlanetFeature::Ore)))
}

/// The feature kinds in the order in which they are drawn.
pub open spec fn kind_feature(kind: usize) -> PlanetFeature {
    if kind == 0 {
        PlanetFeature::Station { stock: 0 }
    } else {
        PlanetFeature::Ore
    }
}

/// The system with body `b` endowed: a featureless body gets the feature of
/// the drawn kind if the coin says so.
pub open spec fn endowed(system: Seq<Planet>, b: int, coin: bool, kind: usize) -> Seq<Planet> {
    if coin && system[b].feat is None {
        system.update(b, with_feature(system[b], Some(kind_feature(kind))))
    } else {
        system
    }
}

/// Whether `post` is `pre` settled: the bodies and orbits are those of `pre`;
/// the sun has no feature; the first body after the sun and the last body
/// carry an empty station; a body between them carries ore; and every other
/// body has the feature it had, or ore, or an empty station where it had
/// nothing.
pub open spec fn settled(pre: Seq<Planet>, post: Seq<Planet>) -> bool {
    let last = pre.len() - 1;
    &&& same_shape(pre, post)
    &&& post[0].feat is None
    &&& post[1].feat == new_station()
    &&& post[last].feat == new_station()
    &&& exists|c: int| 2 <= c < last && (#[trigger] post[c]).is_ore()
    &&& forall|b: int|
        1 < b < last ==> {
            ||| (#[trigger] post[b]).feat == pre[b].feat
            ||| post[b].is_ore()
            ||| pre[b].feat is None && post[b].feat == new_station()
        }
}

impl Simulation {
    /// Places the features that no system may lack: see `guaranteed`.
    pub fn place_guaranteed(&mut self, ore_at: usize)
        requires
            old(self).sketched(),
            old(self).system.len() >= 4,
            2 <= ore_at < old(self).system.len() - 1,
        ensures
            final(self).system@ == guaranteed(old(self).system@, ore_at as int),
            final(self).sketched(),
            final(self).config == old(self).config,
    {
        let ghost pre = self.system@;
        let last = self.system.len() - 1;
        self.system[1].feat = Some(PlanetFeature::Station { stock: 0 });
        self.system[last].feat = Some(PlanetFeature::Station { stock: 0 });
        self.system[ore_at].feat = Some(PlanetFeature::Ore);
        proof {
            assert(self.system@ =~= guaranteed(pre, ore_at as int));
            lemma_features_apart(pre, self.system@);
        }
    }

    /// Endows body `b`: see `endowed`.
    pub fn endow(&mut self, b: usize, coin: bool, kind: usize)
        requires
            old(self).sketched(),
            1 <= b < old(self).system.len(),
        ensures
            final(self).system@ == endowed(old(self).system@, b as int, coin, kind),
            final(self).sketched(),
            final(self).config == old(self).config,
    {
        let ghost pre = self.system@;
        if coin && self.system[b].feat.is_none() {
            let feature = if kind == 0 {
                PlanetFeature::Station { stock: 0 }
            } else {
                PlanetFeature::Ore
            };
            self.system[b].feat = Some(feature);
            proof {
                assert(self.system@ =~= endowed(pre, b as int, coin, kind));
                lemma_features_apart(pre, self.system@);
            }
        }
    }

    /// Settles a system of at least four bodies: places the guaranteed
    /// features, the ore on a random body between the two stations, then
    /// gives every body that is still featureless a random feature with the
    /// configured probability. A smaller system is left as it is.
    pub fn place_features(&mut self) -> (done: Result<(), GenerationError>)
        requires
            old(self).sketched(),
            old(self).config.wf(),
        ensures
            done is Err <==> old(self).system.len() < 4,
            done matches Err(error) ==> error == GenerationError::TooFewBodies && final(self)@ == old(
                self,
            )@,
            done is Ok ==> settled(old(self).system@, final(self).system@) && final(self).wf(),
            done is Ok && old(self).config.pl_feat_prob.numerator == 0 ==> exists|c: int|
                2 <= c < old(self).system.len() - 1 && final(self).system@ == #[trigger] guaranteed(
                    old(self).system@,
                    c,
                ),
            done is Ok && old(self).config.pl_feat_prob.numerator
                == old(self).config.pl_feat_prob.denominator ==> forall|b: int|
                1 <= b < final(self).system.len() ==> (#[trigger] final(self).system[b]).feat is Some,
            final(self).sketched(),
            final(self).config == old(self).config,
    {
        let ghost pre = self.system@;
        let count = self.system.len();
        if count < 4 {
            return Err(GenerationError::TooFewBodies);
        }
        let ore_at = draw_in_range(&mut self.prng, 2, count - 1);
        self.place_guaranteed(ore_at);
        let mut b: usize = 1;
        while b < count
            invariant
                1 <= b <= count,
                count == pre.len(),
                count >= 4,
                2 <= ore_at < count - 1,
                self.sketched(),
                self.config == old(self).config,
                self.config.wf(),
                same_shape(pre, self.system@),
                self.system[0].feat is None,
                self.system[1].feat == new_station(),
                self.system[count - 1].feat == new_station(),
                self.system[ore_at as int].is_ore(),
                self.config.pl_feat_prob.numerator == 0 ==> self.system@ == guaranteed(
                    pre,
                    ore_at as int,
                ),
                self.config.pl_feat_prob.numerator == self.config.pl_feat_prob.denominator
                    ==> forall|x: int| 1 <= x < b ==> (#[trigger] self.system[x]).feat is Some,
                forall|x: int|
                    1 < x < count - 1 ==> {
                        ||| (#[trigger] self.system[x]).feat == pre[x].feat
                        ||| self.system[x].is_ore()
                        ||| pre[x].feat is None && self.system[x].feat == new_station()
                    },
            decreases count - b,
        {
            let coin = flip(
                &mut self.prng,
                self.config.pl_feat_prob.numerator,
                self.config.pl_feat_prob.denominator,
            );
            let kind = if coin && self.system[b].feat.is_none() {
                match choose_below(&mut self.prng, 2) {
                    Some(kind) => kind,
                    None => unreached(),
                }
            } else {
                0
            };
            self.endow(b, coin, kind);
            b += 1;
        }
        proof {
            assert(self.system@[1].is_station() && self.system@[count - 1].is_station());
            assert(self.system@[ore_at as int].is_ore());
        }
        Ok(())
    }

    /// Adds a miner bound for the ore body `target`.
    pub fn add_miner(&mut self, target: usize)
        requires
            old(self).wf(),
            target < old(self).system.len(),
            old(self).system[target as int].is_ore(),
            old(self).ships.len() < usize::MAX,
        ensures
            final(self)@ == old(self)@.enlist(
                Ship { goal: ShipGoal::Visit { target }, job: ShipJob::Miner },
            ),
            final(self).config == old(self).config,
            final(self).wf(),
    {
        let ship = Ship { goal: ShipGoal::Visit { target }, job: ShipJob::Miner };
        proof {
            lemma_enlist_wf(self@, self.config, ship);
        }
        self.ships.push(ship);
    }

    /// Adds a pirate, wandering.
    pub fn add_pirate(&mut self)
        requires
            old(self).wf(),
            old(self).ships.len() < usize::MAX,
        ensures
            final(self)@ == old(self)@.enlist(Ship { goal: ShipGoal::Wander, job: ShipJob::Pirate }),
            final(self).config == old(self).config,
            final(self).wf(),
    {
        let ship = Ship { goal: ShipGoal::Wander, job: ShipJob::Pirate };
        proof {
            lemma_enlist_wf(self@, self.config, ship);
        }
        self.ships.push(ship);
    }

    /// Mans the system: the configured number of miners, each bound for an
    /// ore body drawn at random, then the configured number of pirates,
    /// wandering.
    pub fn populate(&mut self)
        requires
            old(self).wf(),
            old(self).ships.len() + old(self).config.miner_count + old(self).config.pirate_count
                <= usize::MAX,
        ensures
            final(self).wf(),
            final(self).config == old(self).config,
            final(self).system@ == old(self).system@,
            final(self).killed@ == old(self).killed@,
            final(self).ships.len() == old(self).ships.len() + old(self).config.miner_count
                + old(self).config.pirate_count,
            forall|i: int|
                0 <= i < old(self).ships.len() ==> #[trigger] final(self).ships[i] == old(
                    self,
                ).ships[i],
            forall|i: int|
                old(self).ships.len() <= i < old(self).ships.len() + old(self).config.miner_count
                    ==> {
                    &&& (#[trigger] final(self).ships[i]).job == ShipJob::Miner
                    &&& final(self).ships[i].goal matches ShipGoal::Visit { target }
                    &&& target < final(self).system.len()
                    &&& final(self).system[target as int].is_ore()
                },
            forall|i: int|
                old(self).ships.len() + old(self).config.miner_count <= i < final(self).ships.len()
                    ==> #[trigger] final(self).ships[i] == (Ship {
                    goal: ShipGoal::Wander,
                    job: ShipJob::Pirate,
                }),
    {
        let ghost w0 = self@;
        let start = self.ships.len();
        let miners = self.config.miner_count;
        let pirates = self.config.pirate_count;
        let ores = ore_indices(&self.system);
        proof {
            let c = choose|c: int| 0 <= c < w0.system.len() && (#[trigger] w0.system[c]).is_ore();
            assert(ores@.contains(c as usize));
        }
        let mut m: usize = 0;
        while m < miners
            invariant
                m <= miners,
                start + miners + pirates <= usize::MAX,
                self.wf(),
                self.config == old(self).config,
                self.system@ == w0.system,
                self.killed@ == w0.killed,
                self.ships.len() == start + m,
                start == w0.ships.len(),
                ores.len() > 0,
                forall|j: int|
                    0 <= j < ores.len() ==> (#[trigger] ores[j]) < w0.system.len()
                        && w0.system[ores[j] as int].is_ore(),
                forall|i: int| 0 <= i < start ==> #[trigger] self.ships[i] == w0.ships[i],
                forall|i: int|
                    start <= i < start + m ==> {
                        &&& (#[trigger] self.ships[i]).job == ShipJob::Miner
                        &&& self.ships[i].goal matches ShipGoal::Visit { target }
                        &&& target < w0.system.len()
                        &&& w0.system[target as int].is_ore()
                    },
            decreases miners - m,
        {
            match choose_below(&mut self.prng, ores.len()) {
                Some(k) => {
                    self.add_miner(ores[k]);
                },
                None => unreached(),
            }
            m += 1;
        }
        let mut p: usize = 0;
        while p < pirates
            invariant
                p <= pirates,
                start + miners + pirates <= usize::MAX,
                self.wf(),
                self.config == old(self).config,
                self.system@ == w0.system,
                self.killed@ == w0.killed,
                self.ships.len() == start + miners + p,
                start == w0.ships.len(),
                forall|i: int| 0 <= i < start ==> #[trigger] self.ships[i] == w0.ships[i],
                forall|i: int|
                    start <= i < start + miners ==> {
                        &&& (#[trigger] self.ships[i]).job == ShipJob::Miner
                        &&& self.ships[i].goal matches ShipGoal::Visit { target }
                        &&& target < w0.system.len()
                        &&& w0.system[target as int].is_ore()
                    },
                forall|i: int|
                    start + miners <= i < start + miners + p ==> #[trigger] self.ships[i] == (Ship {
                        goal: ShipGoal::Wander,
                        job: ShipJob::Pirate,
                    }),
            decreases pirates - p,
        {
            self.add_pirate();
            p += 1;
        }
    }
}

} // verus!
