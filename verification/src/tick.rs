//! The tick: build, let every ship take its turn, remove.

use vstd::prelude::*;
use crate::config::SimConfig;
use crate::laws::lemma_turn_keeps_the_cast;
use crate::machine::{Seen, Sighting};
use crate::simulation::Simulation;
use crate::world::{World, room};

verus! {

/// What a tick did, for whoever keeps data alongside the registry.
#[derive(Debug)]
pub struct TickReport {
    /// The bodies whose stations built a trader, ascending; the traders
    /// joined the registry in this order.
    pub built: Vec<usize>,
    /// The ships that were held at their initial speed, in the order of the
    /// pirates that held them.
    pub held: Vec<usize>,
    /// The indices at which ships were removed, each as it stood when its
    /// turn came.
    pub removed: Vec<usize>,
}

/// What ship `i` saw: its entry, or nothing for a ship that has none.
pub open spec fn seen_at(sightings: Seq<Sighting>, i: int) -> Seen {
    if 0 <= i < sightings.len() {
        sightings[i]@
    } else {
        Seen::quiet()
    }
}

/// The ships held during the first `n` turns of a tick that passed through
/// the worlds of `trace`.
pub open spec fn held_upto(trace: Seq<World>, sightings: Seq<Sighting>, n: int) -> Seq<usize>
    decreases n,
{
    if n <= 0 {
        Seq::empty()
    } else {
        held_upto(trace, sightings, n - 1) + match trace[n - 1].holds(
            n - 1,
            seen_at(sightings, n - 1),
        ) {
            Some(prey) => seq![prey],
            None => Seq::empty(),
        }
    }
}

impl World {
    /// Whether a tick takes this world to `post` through the worlds of
    /// `trace`: the stations build, giving `trace[0]`; every ship in registry
    /// order, the new traders included, takes its turn, ship `i` taking
    /// `trace[i]` to `trace[i + 1]`; the ships on the removal list are removed
    /// from the last of them.
    pub open spec fn runs(
        self,
        config: SimConfig,
        sightings: Seq<Sighting>,
        trace: Seq<World>,
        built: Seq<usize>,
        held: Seq<usize>,
        removed: Seq<usize>,
        post: World,
    ) -> bool {
        &&& trace.len() >= 1
        &&& self.spawns(config, built, trace[0])
        &&& trace.len() == trace[0].ships.len() + 1
        &&& forall|i: int|
            0 <= i < trace.len() - 1 ==> {
                &&& (#[trigger] trace[i]).wf(config)
                &&& room(trace[i].system, 1)
                &&& trace[i].ships.len() == trace[0].ships.len()
                &&& trace[i].steps(config, i, seen_at(sightings, i), trace[i + 1])
            }
        &&& trace.last().wf(config)
        &&& held == held_upto(trace, sightings, trace.len() - 1)
        &&& removed == trace.last().burials()
        &&& post == trace.last().purge()
    }

    /// Whether a tick may take this world to `post`.
    pub open spec fn ticks(
        self,
        config: SimConfig,
        sightings: Seq<Sighting>,
        built: Seq<usize>,
        held: Seq<usize>,
        removed: Seq<usize>,
        post: World,
    ) -> bool {
        exists|trace: Seq<World>| self.runs(config, sightings, trace, built, held, removed, post)
    }
}

proof fn lemma_held_upto_prefix(trace: Seq<World>, next: World, sightings: Seq<Sighting>, n: int)
    requires
        n <= trace.len(),
    ensures
        held_upto(trace.push(next), sightings, n) == held_upto(trace, sightings, n),
    decreases n,
{
    if n > 0 {
        lemma_held_upto_prefix(trace, next, sightings, n - 1);
        assert(trace.push(next)[n - 1] == trace[n - 1]);
    }
}

impl Simulation {
    /// One tick. The stations build their traders; then every ship, the new
    /// traders included, takes its turn in registry order, ship `i` with
    /// `sightings[i]`, a ship without an entry with a sighting of nothing;
    /// then the ships on the removal list are removed.
    pub fn update(&mut self, sightings: &Vec<Sighting>) -> (report: TickReport)
        requires
            old(self).ready_for_tick(),
        ensures
            old(self)@.ticks(
                old(self).config,
                sightings@,
                report.built@,
                report.held@,
                report.removed@,
                final(self)@,
            ),
            final(self).config == old(self).config,
            final(self).wf(),
    {
        let ghost config = self.config;
        let built = self.spawn_traders();
        let ghost spawned = self@;
        let ghost mut trace: Seq<World> = seq![self@];
        let mut held: Vec<usize> = Vec::new();
        let n = self.ships.len();
        let mut i: usize = 0;
        while i < n
            invariant
                i <= n,
                n == self.ships.len(),
                n == spawned.ships.len(),
                self.wf(),
                self.config == config,
                trace.len() == i + 1,
                trace[i as int] == self@,
                trace[0] == spawned,
                forall|k: int|
                    0 <= k < i ==> {
                        &&& (#[trigger] trace[k]).wf(config)
                        &&& room(trace[k].system, 1)
                        &&& trace[k].ships.len() == n
                        &&& trace[k].steps(config, k, seen_at(sightings@, k), trace[k + 1])
                    },
                held@ == held_upto(trace, sightings@, i as int),
                room(self@.system, n - i),
            decreases n - i,
        {
            let ghost before = self@;
            let ghost so_far = trace;
            let turn = if i < sightings.len() {
                self.update_ship(i, &sightings[i])
            } else {
                let nothing = Sighting::quiet();
                self.update_ship(i, &nothing)
            };
            proof {
                lemma_turn_keeps_the_cast(
                    before,
                    config,
                    i as int,
                    seen_at(sightings@, i as int),
                    self@,
                );
                trace = trace.push(self@);
                lemma_held_upto_prefix(so_far, self@, sightings@, i as int);
                assert forall|k: int| 0 <= k < i + 1 implies {
                    &&& (#[trigger] trace[k]).wf(config)
                    &&& room(trace[k].system, 1)
                    &&& trace[k].ships.len() == n
                    &&& trace[k].steps(config, k, seen_at(sightings@, k), trace[k + 1])
                } by {
                    if k < i {
                        assert(trace[k] == so_far[k]);
                        assert(trace[k + 1] == so_far[k + 1]);
                    }
                }
            }
            match turn {
                Some(prey) => {
                    held.push(prey);
                },
                None => {},
            }
            proof {
                assert(held@ =~= held_upto(trace, sightings@, i + 1));
            }
            i += 1;
        }
        let removed = self.remove_killed();
        proof {
            assert(old(self)@.runs(config, sightings@, trace, built@, held@, removed@, self@));
        }
        TickReport { built, held, removed }
    }
}

} // verus!
