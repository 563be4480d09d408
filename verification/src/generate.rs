//! Building the body tree: the sun, planets, moons, and the discarding of a planet.

use vstd::prelude::*;
use rand::rngs::StdRng;
use crate::config::SimConfig;
use crate::feature::PlanetFeature;
use crate::planet::{Orbit, Planet};
use crate::random::flip;
use crate::simulation::Simulation;
use crate::system::{lemma_features_apart, moons, parent_of, tree_wf};

verus! {

impl Simulation {
    /// A system under construction: a sound tree of bodies, and no ship yet.
    pub open spec fn sketched(&self) -> bool {
        &&& tree_wf(self.system@)
        &&& self.ships@.len() == 0
        &&& self.killed@.len() == 0
    }

    /// A simulation that holds the sun and nothing else.
    pub fn new(config: SimConfig, prng: StdRng) -> (sim: Simulation)
        ensures
            sim.config == config,
            sim.system@.len() == 1,
            sim.system[0].moon_indices@.len() == 0,
            sim.sketched(),
    {
        let mut system: Vec<Planet> = Vec::new();
        system.push(Planet::new());
        Simulation { prng, system, ships: Vec::new(), killed: Vec::new(), config }
    }

    /// Whether `post` is the system `pre` with one more body, in orbit around
    /// `parent` and last in its moon list, and nothing else changed.
    pub open spec fn attached(pre: Seq<Planet>, parent: int, post: Seq<Planet>) -> bool {
        let index = pre.len() as int;
        &&& post.len() == index + 1
        &&& post[index].orbit matches Some(orbit) && orbit.parent_index == parent && orbit.wf()
        &&& post[index].feat is None
        &&& post[index].moon_indices@.len() == 0
        &&& post[parent].orbit == pre[parent].orbit
        &&& post[parent].feat == pre[parent].feat
        &&& post[parent].moon_indices@ == pre[parent].moon_indices@.push(index as usize)
        &&& forall|x: int| 0 <= x < index && x != parent ==> #[trigger] post[x] == pre[x]
    }

    fn attach(&mut self, parent: usize) -> (index: usize)
        requires
            tree_wf(old(self).system@),
            parent < old(self).system.len(),
            old(self).system.len() < usize::MAX,
        ensures
            index == old(self).system.len(),
            Self::attached(old(self).system@, parent as int, final(self).system@),
            tree_wf(final(self).system@),
            final(self).ships == old(self).ships,
            final(self).killed == old(self).killed,
            final(self).config == old(self).config,
    {
        let ghost pre = self.system@;
        let index = self.system.len();
        let orbit = Orbit::new(parent, &mut self.prng);
        self.system[parent].moon_indices.push(index);
        self.system.push(Planet { orbit: Some(orbit), feat: None, moon_indices: Vec::new() });
        proof {
            let post = self.system@;
            assert(Self::attached(pre, parent as int, post));
            assert forall|i: int| 1 <= i < post.len() implies {
                &&& (#[trigger] post[i]).orbit is Some
                &&& post[i].orbit.unwrap().wf()
                &&& parent_of(post, i) < i
            } by {
                if i < index {
                    assert(pre[i].orbit is Some);
                }
            }
            assert forall|p: int, j: int| 0 <= p < post.len() && 0 <= j < moons(post, p).len() implies {
                &&& p < (#[trigger] moons(post, p)[j]) < post.len()
                &&& post[moons(post, p)[j] as int].orbit is Some
                &&& parent_of(post, moons(post, p)[j] as int) == p
            } by {
                if p < index && !(p == parent && j == moons(pre, p).len()) {
                    let m = moons(pre, p)[j];
                    assert(moons(post, p)[j] == m);
                    assert(p < m < pre.len());
                    assert(pre[m as int].orbit is Some);
                }
            }
            assert forall|p: int, j: int, k: int|
                0 <= p < post.len() && 0 <= j < k < moons(post, p).len() implies (#[trigger] moons(
                post,
                p,
            )[j]) < (#[trigger] moons(post, p)[k]) by {
                if p == parent && k == moons(pre, p).len() {
                    assert(moons(post, p)[j] == moons(pre, p)[j]);
                    assert(moons(pre, p)[j] < pre.len());
                } else {
                    assert(moons(pre, p)[j] < moons(pre, p)[k]);
                }
            }
            assert forall|i: int| 1 <= i < post.len() implies moons(
                post,
                #[trigger] parent_of(post, i),
            ).contains(i as usize) by {
                if i < index {
                    assert(pre[i].orbit is Some);
                    let p = parent_of(pre, i);
                    assert(parent_of(post, i) == p);
                    assert(moons(pre, p).contains(i as usize));
                    let at = choose|at: int| 0 <= at < moons(pre, p).len() && moons(pre, p)[at] == i as usize;
                    assert(moons(post, p)[at] == i as usize);
                } else {
                    assert(moons(post, parent as int)[moons(pre, parent as int).len() as int]
                        == i as usize);
                }
            }
        }
        index
    }

    /// Adds a planet: a body in orbit around the sun, with a random speed and
    /// direction. Returns its index.
    pub fn add_planet(&mut self) -> (index: usize)
        requires
            tree_wf(old(self).system@),
            old(self).system.len() < usize::MAX,
        ensures
            index == old(self).system.len(),
            Self::attached(old(self).system@, 0, final(self).system@),
            tree_wf(final(self).system@),
            final(self).ships == old(self).ships,
            final(self).killed == old(self).killed,
            final(self).config == old(self).config,
    {
        self.attach(0)
    }

    /// Adds a moon: a body in orbit around the body `parent`, with a random
    /// speed and direction. Returns its index.
    pub fn add_moon(&mut self, parent: usize) -> (index: usize)
        requires
            tree_wf(old(self).system@),
            1 <= parent < old(self).system.len(),
            old(self).system.len() < usize::MAX,
        ensures
            index == old(self).system.len(),
            Self::attached(old(self).system@, parent as int, final(self).system@),
            tree_wf(final(self).system@),
            final(self).ships == old(self).ships,
            final(self).killed == old(self).killed,
            final(self).config == old(self).config,
    {
        self.attach(parent)
    }

    /// Decides whether the planet under construction gets one more moon: only
    /// while its footprint is below the limit, and then by a coin with the
    /// configured odds.
    pub fn moon_wanted(&mut self, below_limit: bool) -> (wanted: bool)
        requires
            old(self).config.pl_moon_prob.wf(),
        ensures
            !below_limit ==> !wanted,
            old(self).config.pl_moon_prob.numerator == 0 ==> !wanted,
            below_limit && old(self).config.pl_moon_prob.numerator
                == old(self).config.pl_moon_prob.denominator ==> wanted,
            final(self)@ == old(self)@,
            final(self).config == old(self).config,
    {
        below_limit && flip(
            &mut self.prng,
            self.config.pl_moon_prob.numerator,
            self.config.pl_moon_prob.denominator,
        )
    }

    /// Whether every body after `planet` descends from it, so that the
    /// system ends with that planet's subsystem.
    pub open spec fn ends_with_subsystem(system: Seq<Planet>, planet: int) -> bool {
        forall|i: int| planet < i < system.len() ==> #[trigger] parent_of(system, i) >= planet
    }

    /// Whether `post` is the system `pre` cut back to before its last planet.
    pub open spec fn cut_back(pre: Seq<Planet>, post: Seq<Planet>) -> bool {
        let planet = moons(pre, 0).last() as int;
        &&& post.len() == planet
        &&& post[0].orbit == pre[0].orbit
        &&& post[0].feat == pre[0].feat
        &&& post[0].moon_indices@ == pre[0].moon_indices@.drop_last()
        &&& forall|x: int| 0 < x < planet ==> #[trigger] post[x] == pre[x]
    }

    /// Discards the newest planet with its moons, and says whether it did. It
    /// does nothing if there is no planet, or if a body after the newest
    /// planet orbits an older one.
    pub fn discard_planet(&mut self) -> (discarded: bool)
        requires
            old(self).sketched(),
        ensures
            discarded == (moons(old(self).system@, 0).len() > 0 && Self::ends_with_subsystem(
                old(self).system@,
                moons(old(self).system@, 0).last() as int,
            )),
            discarded ==> Self::cut_back(old(self).system@, final(self).system@),
            !discarded ==> final(self).system@ == old(self).system@,
            final(self).sketched(),
            final(self).config == old(self).config,
    {
        let ghost pre = self.system@;
        let count = self.system[0].moon_indices.len();
        if count == 0 {
            return false;
        }
        let planet = self.system[0].moon_indices[count - 1];
        assert(planet == moons(pre, 0)[count - 1]);
        assert(planet < pre.len());
        assert(pre.len() == self.system.len());
        let mut i: usize = planet + 1;
        while i < self.system.len()
            invariant
                planet < i <= self.system.len(),
                self.system@ == pre,
                self.sketched(),
                self.config == old(self).config,
                count == moons(pre, 0).len(),
                count > 0,
                planet == moons(pre, 0).last(),
                tree_wf(pre),
                forall|x: int| planet < x < i ==> #[trigger] parent_of(pre, x) >= planet,
            decreases self.system.len() - i,
        {
            match self.system[i].orbit {
                Some(orbit) => {
                    if orbit.parent_index < planet {
                        assert(parent_of(pre, i as int) < planet);
                        return false;
                    }
                },
                None => {},
            }
            i += 1;
        }
        self.system[0].moon_indices.pop();
        self.system.truncate(planet);
        proof {
            let post = self.system@;
            assert(Self::cut_back(pre, post));
            assert forall|i: int| 1 <= i < post.len() implies {
                &&& (#[trigger] post[i]).orbit is Some
                &&& post[i].orbit.unwrap().wf()
                &&& parent_of(post, i) < i
            } by {
                assert(pre[i].orbit is Some);
            }
            assert forall|p: int, j: int| 0 <= p < post.len() && 0 <= j < moons(post, p).len() implies {
                &&& p < (#[trigger] moons(post, p)[j]) < post.len()
                &&& post[moons(post, p)[j] as int].orbit is Some
                &&& parent_of(post, moons(post, p)[j] as int) == p
            } by {
                let m = moons(pre, p)[j];
                assert(moons(post, p)[j] == m);
                assert(p < m < pre.len());
                assert(pre[m as int].orbit is Some);
                assert(parent_of(pre, m as int) == p);
                if p == 0 {
                    assert(moons(pre, 0)[j] < moons(pre, 0)[count - 1]);
                } else if m >= planet {
                    if m == planet {
                        assert(parent_of(pre, planet as int) == 0);
                    } else {
                        assert(parent_of(pre, m as int) >= planet);
                    }
                }
            }
            assert forall|p: int, j: int, k: int|
                0 <= p < post.len() && 0 <= j < k < moons(post, p).len() implies (#[trigger] moons(
                post,
                p,
            )[j]) < (#[trigger] moons(post, p)[k]) by {
                assert(moons(pre, p)[j] < moons(pre, p)[k]);
            }
            assert forall|i: int| 1 <= i < post.len() implies moons(
                post,
                #[trigger] parent_of(post, i),
            ).contains(i as usize) by {
                assert(pre[i].orbit is Some);
                let p = parent_of(pre, i);
                assert(parent_of(post, i) == p);
                assert(moons(pre, p).contains(i as usize));
                let at = choose|at: int| 0 <= at < moons(pre, p).len() && moons(pre, p)[at] == i as usize;
                if p == 0 {
                    assert(at != count - 1);
                }
                assert(moons(post, p)[at] == i as usize);
            }
        }
        true
    }

    /// Gives body `b` a feature, whatever it had.
    pub fn set_feature(&mut self, b: usize, feature: PlanetFeature)
        requires
            old(self).sketched(),
            1 <= b < old(self).system.len(),
        ensures
            final(self).system@ == old(self).system@.update(
                b as int,
                Planet {
                    orbit: old(self).system[b as int].orbit,
                    feat: Some(feature),
                    moon_indices: old(self).system[b as int].moon_indices,
                },
            ),
            final(self).sketched(),
            final(self).config == old(self).config,
    {
        let ghost pre = self.system@;
        self.system[b].feat = Some(feature);
        proof {
            let post = self.system@;
            assert(post =~= pre.update(
                b as int,
                Planet {
                    orbit: pre[b as int].orbit,
                    feat: Some(feature),
                    moon_indices: pre[b as int].moon_indices,
                },
            ));
            lemma_features_apart(pre, post);
        }
    }
}

} // verus!
