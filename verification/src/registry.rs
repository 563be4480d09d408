//! Removing ships from the registry and patching what pointed into it.

use vstd::prelude::*;
use crate::config::SimConfig;
use crate::ship::{Ship, ShipGoal};
use crate::simulation::Simulation;
use crate::world::{World, ship_wf};

verus! {

/// Where index `x` points once ship `k` has left the registry.
pub open spec fn shifted(x: usize, k: int) -> usize {
    if x > k {
        (x - 1) as usize
    } else {
        x
    }
}

/// A goal once ship `k` has left the registry: a hunt for `k` becomes
/// wandering, a hunt for a later ship follows that ship to its new index.
pub open spec fn patched(goal: ShipGoal, k: int) -> ShipGoal {
    match goal {
        ShipGoal::Hunt { prey, progress } => if prey == k {
            ShipGoal::Wander
        } else {
            ShipGoal::Hunt { prey: shifted(prey, k), progress }
        },
        _ => goal,
    }
}

/// A ship once ship `k` has left the registry.
pub open spec fn informed(ship: Ship, k: int) -> Ship {
    Ship { goal: patched(ship.goal, k), job: ship.job }
}

/// The registry once ship `k` has left it: the other ships in their order,
/// their goals patched.
pub open spec fn survivors(ships: Seq<Ship>, k: int) -> Seq<Ship> {
    Seq::new(
        (ships.len() - 1) as nat,
        |j: int|
            informed(
                ships[if j < k {
                    j
                } else {
                    j + 1
                }],
                k,
            ),
    )
}

impl World {
    /// The world once the first ship on the removal list has been removed:
    /// the registry closes up, and what pointed into it, goals and the rest
    /// of the removal list, is patched.
    pub open spec fn bury_first(self) -> World {
        let k = self.killed[0] as int;
        World {
            system: self.system,
            ships: survivors(self.ships, k),
            killed: Seq::new((self.killed.len() - 1) as nat, |j: int| shifted(self.killed[j + 1], k)),
        }
    }

    /// The world once every ship on the removal list has been removed.
    pub open spec fn purge(self) -> World
        decreases self.killed.len(),
    {
        if self.killed.len() == 0 {
            self
        } else {
            self.bury_first().purge()
        }
    }

    /// The indices at which `purge` removes, each as it stands when its turn
    /// comes.
    pub open spec fn burials(self) -> Seq<usize>
        decreases self.killed.len(),
    {
        if self.killed.len() == 0 {
            Seq::empty()
        } else {
            seq![self.killed[0]] + self.bury_first().burials()
        }
    }
}

/// Where ship `i` stands once ship `k` has left the registry.
pub open spec fn seat(i: int, k: int) -> int {
    if i < k {
        i
    } else {
        i - 1
    }
}

/// Removing ship `k` leaves no hunt for it: who hunted `k` wanders, who
/// hunted a later ship hunts it at an index one lower, with the counter it
/// had, and every other goal stands.
pub proof fn lemma_removal_patches_prey(ships: Seq<Ship>, k: int)
    requires
        0 <= k < ships.len(),
    ensures
        survivors(ships, k).len() == ships.len() - 1,
        forall|i: int|
            0 <= i < ships.len() && i != k ==> {
                let after = survivors(ships, k)[seat(i, k)];
                &&& after.job == (#[trigger] ships[i]).job
                &&& match ships[i].goal {
                    ShipGoal::Hunt { prey, progress } => if prey == k {
                        after.goal == ShipGoal::Wander
                    } else if prey > k {
                        after.goal == (ShipGoal::Hunt { prey: (prey - 1) as usize, progress })
                    } else {
                        after.goal == ships[i].goal
                    },
                    _ => after.goal == ships[i].goal,
                }
            },
{
}

/// Every hunt that outlives the removal of ship `k` is after the ship it was
/// after before.
pub proof fn lemma_removal_keeps_prey(ships: Seq<Ship>, k: int, i: int)
    requires
        0 <= k < ships.len(),
        0 <= i < ships.len() && i != k,
        ships[i].goal matches ShipGoal::Hunt { prey, .. } && prey != k && prey < ships.len(),
    ensures
        ({
            let after = survivors(ships, k)[seat(i, k)];
            &&& after.goal is Hunt
            &&& after.goal->prey == seat(ships[i].goal->prey as int, k)
            &&& survivors(ships, k)[after.goal->prey as int].job == ships[ships[i].goal->prey as int].job
        }),
{
}

/// Removing the first listed ship leaves a sound world sound.
pub proof fn lemma_bury_first_wf(w: World, config: SimConfig)
    requires
        w.wf(config),
        w.killed.len() > 0,
    ensures
        w.bury_first().wf(config),
{
    let v = w.bury_first();
    let k = w.killed[0] as int;
    assert(0 <= k < w.ships.len());
    assert forall|j: int| 0 <= j < v.ships.len() implies ship_wf(
        v.system,
        v.ships,
        config,
        #[trigger] v.ships[j],
    ) by {
        let src = if j < k {
            j
        } else {
            j + 1
        };
        assert(ship_wf(w.system, w.ships, config, w.ships[src]));
        match w.ships[src].goal {
            ShipGoal::Hunt { prey, progress } => {
                if prey != k {
                    let to = shifted(prey, k) as int;
                    assert(v.ships[to].job == w.ships[prey as int].job);
                }
            },
            _ => {},
        }
    }
    assert forall|j: int| 0 <= j < v.killed.len() implies (#[trigger] v.killed[j])
        < v.ships.len() by {
        assert(w.killed[j + 1] != w.killed[0]);
        assert(w.killed[j + 1] < w.ships.len());
    }
    assert forall|a: int, b: int| 0 <= a < b < v.killed.len() implies (#[trigger] v.killed[a]) != (
    #[trigger] v.killed[b]) by {
        assert(w.killed[a + 1] != w.killed[b + 1]);
        assert(w.killed[a + 1] != w.killed[0]);
        assert(w.killed[b + 1] != w.killed[0]);
    }
}

/// Removing the listed ships removes as many ships as are listed, one at
/// each of the indices reported, and leaves the bodies alone and the world
/// sound.
pub proof fn lemma_purge_removes_the_listed(w: World, config: SimConfig)
    requires
        w.wf(config),
    ensures
        w.purge().ships.len() == w.ships.len() - w.killed.len(),
        w.burials().len() == w.killed.len(),
        w.purge().killed.len() == 0,
        w.purge().system == w.system,
        w.purge().wf(config),
    decreases w.killed.len(),
{
    if w.killed.len() > 0 {
        lemma_bury_first_wf(w, config);
        lemma_purge_removes_the_listed(w.bury_first(), config);
    }
}

impl Simulation {
    /// Removes the first ship on the removal list from the registry and
    /// returns the index it had. Hunts for it end in wandering; hunts for
    /// later ships, and later entries of the removal list, move down by one.
    pub fn bury_first(&mut self) -> (k: usize)
        requires
            old(self).wf(),
            old(self).killed.len() > 0,
        ensures
            k == old(self).killed[0],
            final(self)@ == old(self)@.bury_first(),
            final(self).config == old(self).config,
            final(self).wf(),
    {
        let ghost w0 = self@;
        let k = self.killed.remove(0);
        let mut j: usize = 0;
        while j < self.killed.len()
            invariant
                j <= self.killed.len(),
                self.config == old(self).config,
                self.system@ == w0.system,
                self.ships@ == w0.ships,
                self.killed.len() == w0.killed.len() - 1,
                forall|m: int| 0 <= m < j ==> self.killed[m] == shifted(w0.killed[m + 1], k as int),
                forall|m: int| j <= m < self.killed.len() ==> self.killed[m] == w0.killed[m + 1],
            decreases self.killed.len() - j,
        {
            let x = self.killed[j];
            if x > k {
                self.killed[j] = x - 1;
            }
            j += 1;
        }
        let ghost listed = self.killed@;
        let mut i: usize = 0;
        while i < self.ships.len()
            invariant
                i <= self.ships.len(),
                self.config == old(self).config,
                self.system@ == w0.system,
                self.killed@ == listed,
                self.ships.len() == w0.ships.len(),
                forall|m: int| 0 <= m < i ==> self.ships[m] == informed(w0.ships[m], k as int),
                forall|m: int| i <= m < self.ships.len() ==> self.ships[m] == w0.ships[m],
            decreases self.ships.len() - i,
        {
            match self.ships[i].goal {
                ShipGoal::Hunt { prey, progress } => {
                    if prey == k {
                        self.ships[i].goal = ShipGoal::Wander;
                    } else if prey > k {
                        self.ships[i].goal = ShipGoal::Hunt { prey: prey - 1, progress };
                    }
                },
                _ => {},
            }
            i += 1;
        }
        self.ships.remove(k);
        proof {
            assert(self@.ships =~= w0.bury_first().ships);
            assert(self@.killed =~= w0.bury_first().killed);
            lemma_bury_first_wf(w0, self.config);
        }
        k
    }

    /// Removes every ship on the removal list and patches what pointed into
    /// the registry. Returns the indices removed, each as it stood when its
    /// turn came: removing at these indices, in this order, from a list that
    /// runs parallel to the registry keeps the two parallel.
    pub fn remove_killed(&mut self) -> (removed: Vec<usize>)
        requires
            old(self).wf(),
        ensures
            final(self)@ == old(self)@.purge(),
            removed@ == old(self)@.burials(),
            final(self).killed@.len() == 0,
            final(self).config == old(self).config,
            final(self).wf(),
    {
        let mut removed: Vec<usize> = Vec::new();
        while self.killed.len() > 0
            invariant
                self.wf(),
                self.config == old(self).config,
                self@.purge() == old(self)@.purge(),
                removed@ + self@.burials() == old(self)@.burials(),
            decreases self.killed.len(),
        {
            let ghost before = self@;
            let ghost done = removed@;
            let k = self.bury_first();
            removed.push(k);
            proof {
                assert(removed@ + self@.burials() =~= done + before.burials());
            }
        }
        proof {
            assert(removed@ + self@.burials() =~= removed@);
        }
        removed
    }
}

} // verus!
