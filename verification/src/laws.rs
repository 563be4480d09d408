//! What holds of every turn and every tick: the bodies stay, and the ore is accounted for.

use vstd::prelude::*;
use crate::config::SimConfig;
use crate::machine::{Seen, Sighting};
use crate::registry::lemma_bury_first_wf;
use crate::tick::seen_at;
use crate::planet::Planet;
use crate::registry::{informed, survivors};
use crate::ship::{Ship, ShipGoal, ShipJob};
use crate::system::same_shape;
use crate::world::{World, cargo_sum, room, ship_wf, stock_sum};

verus! {

/// Whether two systems carry features of the same kinds on the same bodies.
pub open spec fn same_kinds(a: Seq<Planet>, b: Seq<Planet>) -> bool {
    &&& a.len() == b.len()
    &&& forall|x: int|
        0 <= x < a.len() ==> {
            &&& (#[trigger] a[x]).is_station() == b[x].is_station()
            &&& a[x].is_ore() == b[x].is_ore()
            &&& a[x].feat is None == b[x].feat is None
        }
}

/// A ship's turn creates and removes no body and no ship, moves no body to
/// another orbit, changes no feature's kind and no ship's trade, and adds at
/// most one unit to any station.
pub proof fn lemma_turn_keeps_the_cast(pre: World, config: SimConfig, i: int, seen: Seen, post: World)
    requires
        pre.wf(config),
        0 <= i < pre.ships.len(),
        pre.steps(config, i, seen, post),
    ensures
        same_shape(pre.system, post.system),
        same_kinds(pre.system, post.system),
        post.ships.len() == pre.ships.len(),
        forall|j: int|
            0 <= j < pre.ships.len() ==> {
                &&& (#[trigger] post.ships[j]).job is Miner == pre.ships[j].job is Miner
                &&& post.ships[j].job is Pirate == pre.ships[j].job is Pirate
            },
        forall|b: int|
            0 <= b < pre.system.len() ==> (#[trigger] post.system[b]).stock() <= pre.system[b].stock()
                + 1,
{
    assert(ship_wf(pre.system, pre.ships, config, pre.ships[i]));
    match pre.ships[i].goal {
        ShipGoal::Hunt { prey, .. } => {
            assert(pre.ships[prey as int].job is Trader);
        },
        _ => {},
    }
}

/// One for a trader with cargo aboard, nothing for any other ship.
pub open spec fn load(ship: Ship) -> int {
    if ship.carries() {
        1
    } else {
        0
    }
}

/// Replacing one body changes the stock total by the difference of the two
/// stocks.
pub proof fn lemma_stock_sum_update(system: Seq<Planet>, b: int, planet: Planet)
    requires
        0 <= b < system.len(),
    ensures
        stock_sum(system.update(b, planet)) == stock_sum(system) - system[b].stock()
            + planet.stock(),
    decreases system.len(),
{
    let after = system.update(b, planet);
    if b == system.len() - 1 {
        assert(after.drop_last() =~= system.drop_last());
    } else {
        assert(after.drop_last() =~= system.drop_last().update(b, planet));
        lemma_stock_sum_update(system.drop_last(), b, planet);
    }
}

/// Replacing one ship changes the cargo total by the difference of the two
/// loads.
pub proof fn lemma_cargo_sum_update(ships: Seq<Ship>, i: int, ship: Ship)
    requires
        0 <= i < ships.len(),
    ensures
        cargo_sum(ships.update(i, ship)) == cargo_sum(ships) - load(ships[i]) + load(ship),
    decreases ships.len(),
{
    let after = ships.update(i, ship);
    if i == ships.len() - 1 {
        assert(after.drop_last() =~= ships.drop_last());
    } else {
        assert(after.drop_last() =~= ships.drop_last().update(i, ship));
        lemma_cargo_sum_update(ships.drop_last(), i, ship);
    }
}

/// A ship that joins the registry adds its load to the cargo total.
pub proof fn lemma_cargo_sum_push(ships: Seq<Ship>, ship: Ship)
    ensures
        cargo_sum(ships.push(ship)) == cargo_sum(ships) + load(ship),
{
    assert(ships.push(ship).drop_last() =~= ships);
}

/// A ship that leaves the registry takes its load from the cargo total;
/// patching the goals of the others changes nothing.
pub proof fn lemma_cargo_sum_survivors(ships: Seq<Ship>, k: int)
    requires
        0 <= k < ships.len(),
    ensures
        cargo_sum(survivors(ships, k)) == cargo_sum(ships) - load(ships[k]),
    decreases ships.len(),
{
    let after = survivors(ships, k);
    let front = ships.drop_last();
    if k == ships.len() - 1 {
        lemma_cargo_sum_informed(front, k);
        assert(after =~= Seq::new(front.len(), |j: int| informed(front[j], k)));
    } else {
        assert(after.drop_last() =~= survivors(front, k));
        lemma_cargo_sum_survivors(front, k);
        assert(load(after.last()) == load(ships.last()));
    }
}

/// Patching goals changes no load.
pub proof fn lemma_cargo_sum_informed(ships: Seq<Ship>, k: int)
    ensures
        cargo_sum(Seq::new(ships.len(), |j: int| informed(ships[j], k))) == cargo_sum(ships),
    decreases ships.len(),
{
    let after = Seq::new(ships.len(), |j: int| informed(ships[j], k));
    if ships.len() > 0 {
        let front = ships.drop_last();
        assert(after.drop_last() =~= Seq::new(front.len(), |j: int| informed(front[j], k)));
        lemma_cargo_sum_informed(front, k);
    }
}

/// Whether ship `i` delivers ore on its turn: a miner that arrives at a
/// station.
pub open spec fn delivers(pre: World, i: int, seen: Seen) -> bool {
    &&& pre.ships[i].job is Miner
    &&& pre.ships[i].goal matches ShipGoal::Visit { target }
    &&& seen.arrived
    &&& pre.system[target as int].is_station()
}

/// Whether ship `i` ends a raid on a loaded prey on its turn.
pub open spec fn plunders(pre: World, config: SimConfig, i: int, seen: Seen) -> bool {
    &&& pre.ships[i].goal matches ShipGoal::Hunt { prey, progress }
    &&& pre.ships[prey as int].carries()
    &&& seen.prey_in_range
    &&& progress > config.raid_duration
}

/// Ore is conserved by a ship's turn but for mining and piracy: the total of
/// all units, in the stations and aboard traders, grows by exactly one when a
/// miner delivers, shrinks by exactly one when a raid on a loaded prey ends,
/// and stays as it is on any other turn.
pub proof fn lemma_turn_conserves_ore(pre: World, config: SimConfig, i: int, seen: Seen, post: World)
    requires
        pre.wf(config),
        0 <= i < pre.ships.len(),
        room(pre.system, 1),
        pre.steps(config, i, seen, post),
    ensures
        post.units() == pre.units() + (if delivers(pre, i, seen) {
            1int
        } else {
            0int
        }) - (if plunders(pre, config, i, seen) {
            1int
        } else {
            0int
        }),
{
    let ship = pre.ships[i];
    assert(ship_wf(pre.system, pre.ships, config, ship));
    match ship.goal {
        ShipGoal::Visit { target } => {
            if seen.arrived {
                lemma_goal_conserves_ore(pre, config, i, seen, post);
            }
        },
        ShipGoal::Wait { target, progress } => {
            if progress == config.harvest_duration {
                lemma_goal_conserves_ore(pre, config, i, seen, post);
            } else {
                lemma_retask_units(
                    pre,
                    i,
                    ShipGoal::Wait { target, progress: (progress + 1) as isize },
                );
            }
        },
        ShipGoal::Wander => {
            lemma_goal_conserves_ore(pre, config, i, seen, post);
        },
        ShipGoal::Scan => {
            lemma_goal_conserves_ore(pre, config, i, seen, post);
        },
        ShipGoal::Hunt { prey, progress } => {
            if !pre.ships[prey as int].carries() {
                lemma_goal_conserves_ore(pre, config, i, seen, post);
            } else if !seen.prey_in_range {
                lemma_retask_units(pre, i, ShipGoal::Wander);
            } else if progress > config.raid_duration {
                lemma_raid_units(pre, i, prey as int, true);
                lemma_raid_units(pre, i, prey as int, false);
            } else {
                lemma_retask_units(
                    pre,
                    i,
                    ShipGoal::Hunt { prey, progress: (progress + 1) as isize },
                );
            }
        },
    }
}

/// A new goal moves no ore.
pub proof fn lemma_retask_units(w: World, i: int, goal: ShipGoal)
    requires
        0 <= i < w.ships.len(),
    ensures
        w.retask(i, goal).units() == w.units(),
        w.retask(i, goal).stocked() == w.stocked(),
{
    lemma_cargo_sum_update(w.ships, i, Ship { goal, job: w.ships[i].job });
}

/// A new job moves the ore that the ship gains or loses with it.
pub proof fn lemma_rehire_units(w: World, i: int, job: ShipJob)
    requires
        0 <= i < w.ships.len(),
    ensures
        w.rehire(i, job).afloat() == w.afloat() - load(w.ships[i]) + load(
            Ship { goal: w.ships[i].goal, job },
        ),
        w.rehire(i, job).stocked() == w.stocked(),
{
    lemma_cargo_sum_update(w.ships, i, Ship { goal: w.ships[i].goal, job });
}

/// A new stock moves the ore that the station gains or loses with it.
pub proof fn lemma_restock_units(w: World, b: int, stock: int)
    requires
        0 <= b < w.system.len(),
        0 <= stock <= usize::MAX,
    ensures
        w.restock(b, stock).stocked() == w.stocked() - w.system[b].stock() + stock,
        w.restock(b, stock).afloat() == w.afloat(),
{
    lemma_stock_sum_update(w.system, b, w.restock(b, stock).system[b]);
}

/// The end of a raid takes the prey's load out of the world.
pub proof fn lemma_raid_units(w: World, i: int, prey: int, roll: bool)
    requires
        0 <= i < w.ships.len(),
        0 <= prey < w.ships.len(),
    ensures
        w.raid(i, prey, roll).units() == w.units() - load(w.ships[prey]),
{
    let marked = if roll {
        w.condemn(prey)
    } else {
        w
    };
    if marked.ships[prey].job is Trader {
        lemma_rehire_units(marked, prey, ShipJob::Trader { cargo: false });
    }
    lemma_retask_units(marked.strip(prey), i, ShipGoal::Wander);
}

/// Ore is conserved when a ship takes a new goal, but for a miner's delivery
/// and a pirate's plunder.
pub proof fn lemma_goal_conserves_ore(pre: World, config: SimConfig, i: int, seen: Seen, post: World)
    requires
        pre.wf(config),
        0 <= i < pre.ships.len(),
        room(pre.system, 1),
        pre.arrives(config, i, seen, post),
    ensures
        post.units() == pre.units() + (if pre.ships[i].job is Miner && pre.ships[i].goal is Visit
            && pre.system[pre.target_of(i)].is_station() {
            1int
        } else {
            0int
        }) - (if pre.ships[i].goal matches ShipGoal::Hunt { prey, .. } && pre.ships[prey as int].carries() {
            1int
        } else {
            0int
        }),
{
    let ship = pre.ships[i];
    assert(ship_wf(pre.system, pre.ships, config, ship));
    match (ship.job, ship.goal) {
        (ShipJob::Trader { cargo }, ShipGoal::Visit { target }) => {
            let dest = post.ships[i].goal->Visit_target as int;
            let here = pre.system[target as int].stock();
            let onward = ShipGoal::Visit { target: dest as usize };
            if cargo {
                let a = pre.restock(target as int, here + 1);
                lemma_restock_units(pre, target as int, here + 1);
                let b = a.rehire(i, ShipJob::Trader { cargo: false });
                lemma_rehire_units(a, i, ShipJob::Trader { cargo: false });
                lemma_retask_units(b, i, onward);
            } else if here > pre.system[dest].stock() {
                let a = pre.restock(target as int, here - 1);
                lemma_restock_units(pre, target as int, here - 1);
                let b = a.rehire(i, ShipJob::Trader { cargo: true });
                lemma_rehire_units(a, i, ShipJob::Trader { cargo: true });
                lemma_retask_units(b, i, onward);
            } else {
                lemma_retask_units(pre, i, onward);
            }
        },
        (ShipJob::Miner, ShipGoal::Visit { target }) => {
            if pre.system[target as int].is_station() {
                let next = post.ships[i].goal->Visit_target;
                let here = pre.system[target as int].stock();
                lemma_restock_units(pre, target as int, here + 1);
                lemma_retask_units(
                    pre.restock(target as int, here + 1),
                    i,
                    ShipGoal::Visit { target: next },
                );
            } else {
                lemma_retask_units(pre, i, post.ships[i].goal);
            }
        },
        (ShipJob::Miner, ShipGoal::Wait { .. }) => {
            lemma_retask_units(pre, i, post.ships[i].goal);
        },
        (ShipJob::Pirate, ShipGoal::Wander) => {
            lemma_retask_units(pre, i, ShipGoal::Scan);
        },
        (ShipJob::Pirate, ShipGoal::Scan) => {
            lemma_retask_units(pre, i, post.ships[i].goal);
            lemma_retask_units(pre, i, ShipGoal::Wander);
        },
        (ShipJob::Pirate, ShipGoal::Hunt { prey, .. }) => {
            lemma_raid_units(pre, i, prey as int, false);
        },
        _ => {},
    }
}

/// Removing the first listed ship takes that ship's load out of the world,
/// and nothing else.
pub proof fn lemma_burial_units(w: World)
    requires
        w.killed.len() > 0,
        w.killed[0] < w.ships.len(),
    ensures
        w.bury_first().units() == w.units() - load(w.ships[w.killed[0] as int]),
{
    lemma_cargo_sum_survivors(w.ships, w.killed[0] as int);
}

/// The deliveries of ore during the first `n` turns of a tick that passed
/// through the worlds of `trace`.
pub open spec fn mined_upto(trace: Seq<World>, sightings: Seq<Sighting>, n: int) -> int
    decreases n,
{
    if n <= 0 {
        0
    } else {
        mined_upto(trace, sightings, n - 1) + if delivers(
            trace[n - 1],
            n - 1,
            seen_at(sightings, n - 1),
        ) {
            1int
        } else {
            0int
        }
    }
}

/// The raids on loaded prey that ended during the first `n` turns of a tick
/// that passed through the worlds of `trace`.
pub open spec fn plundered_upto(
    trace: Seq<World>,
    config: SimConfig,
    sightings: Seq<Sighting>,
    n: int,
) -> int
    decreases n,
{
    if n <= 0 {
        0
    } else {
        plundered_upto(trace, config, sightings, n - 1) + if plunders(
            trace[n - 1],
            config,
            n - 1,
            seen_at(sightings, n - 1),
        ) {
            1int
        } else {
            0int
        }
    }
}

/// The units aboard the ships on the removal list.
pub open spec fn doomed(w: World) -> int
    decreases w.killed.len(),
{
    if w.killed.len() == 0 {
        0
    } else {
        load(w.ships[w.killed[0] as int]) + doomed(w.bury_first())
    }
}

/// Removing the listed ships takes their loads out of the world, and nothing
/// else.
pub proof fn lemma_purge_units(w: World, config: SimConfig)
    requires
        w.wf(config),
    ensures
        w.purge().units() == w.units() - doomed(w),
        w.purge().system == w.system,
        w.purge().killed.len() == 0,
    decreases w.killed.len(),
{
    if w.killed.len() > 0 {
        lemma_burial_units(w);
        lemma_bury_first_wf(w, config);
        lemma_purge_units(w.bury_first(), config);
    }
}

/// Over the turns of a tick the ore grows by the deliveries and shrinks by
/// the plunder, and the bodies stay what and where they are.
pub proof fn lemma_turns_account_for_ore(
    trace: Seq<World>,
    config: SimConfig,
    sightings: Seq<Sighting>,
    n: int,
)
    requires
        0 <= n < trace.len(),
        n <= trace[0].ships.len(),
        forall|i: int|
            0 <= i < n ==> {
                &&& (#[trigger] trace[i]).wf(config)
                &&& room(trace[i].system, 1)
                &&& trace[i].ships.len() == trace[0].ships.len()
                &&& trace[i].steps(config, i, seen_at(sightings, i), trace[i + 1])
            },
    ensures
        trace[n].units() == trace[0].units() + mined_upto(trace, sightings, n) - plundered_upto(
            trace,
            config,
            sightings,
            n,
        ),
        same_shape(trace[0].system, trace[n].system),
        same_kinds(trace[0].system, trace[n].system),
    decreases n,
{
    if n > 0 {
        lemma_turns_account_for_ore(trace, config, sightings, n - 1);
        let pre = trace[n - 1];
        lemma_turn_conserves_ore(pre, config, n - 1, seen_at(sightings, n - 1), trace[n]);
        lemma_turn_keeps_the_cast(pre, config, n - 1, seen_at(sightings, n - 1), trace[n]);
    }
}

/// The ore of a whole tick: what the world holds after the tick is what it
/// held before, less one ship's cost for every trader built, plus one unit
/// for every delivery by a miner, less one unit for every raid on a loaded
/// prey that ended, less what was aboard the ships removed. A tick with no
/// building, no mining and no piracy conserves the ore.
pub proof fn lemma_tick_accounts_for_ore(
    pre: World,
    config: SimConfig,
    sightings: Seq<Sighting>,
    trace: Seq<World>,
    built: Seq<usize>,
    held: Seq<usize>,
    removed: Seq<usize>,
    post: World,
)
    requires
        pre.runs(config, sightings, trace, built, held, removed, post),
    ensures
        post.units() == pre.units() - built.len() * config.ship_cost + mined_upto(
            trace,
            sightings,
            trace.len() - 1,
        ) - plundered_upto(trace, config, sightings, trace.len() - 1) - doomed(trace.last()),
{
    lemma_turns_account_for_ore(trace, config, sightings, trace.len() - 1);
    lemma_purge_units(trace.last(), config);
}

/// A tick creates and removes no body, moves none to another orbit and
/// changes no feature's kind: the sun stays the root without an orbit, and
/// the tree that the generation built is the tree after any number of ticks.
pub proof fn lemma_tick_keeps_the_bodies(
    pre: World,
    config: SimConfig,
    sightings: Seq<Sighting>,
    trace: Seq<World>,
    built: Seq<usize>,
    held: Seq<usize>,
    removed: Seq<usize>,
    post: World,
)
    requires
        pre.runs(config, sightings, trace, built, held, removed, post),
    ensures
        same_shape(pre.system, post.system),
        same_kinds(pre.system, post.system),
{
    lemma_turns_account_for_ore(trace, config, sightings, trace.len() - 1);
    lemma_purge_units(trace.last(), config);
    let spawned = trace[0].system;
    let last = trace.last().system;
    assert forall|i: int| 0 <= i < pre.system.len() implies {
        &&& (#[trigger] pre.system[i]).orbit == post.system[i].orbit
        &&& pre.system[i].moon_indices == post.system[i].moon_indices
    } by {
        assert(spawned[i].orbit == pre.system[i].orbit);
        assert(spawned[i].orbit == last[i].orbit);
    }
    assert forall|x: int| 0 <= x < pre.system.len() implies {
        &&& (#[trigger] pre.system[x]).is_station() == post.system[x].is_station()
        &&& pre.system[x].is_ore() == post.system[x].is_ore()
        &&& pre.system[x].feat is None == post.system[x].feat is None
    } by {
        assert(spawned[x].is_station() == pre.system[x].is_station());
        assert(spawned[x].is_station() == last[x].is_station());
    }
}

} // verus!
