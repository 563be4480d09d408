use rand::rngs::StdRng;
use rand::SeedableRng;
use starsim::config::{Ratio, SimConfig, Span};
use starsim::feature::PlanetFeature;
use starsim::machine::{draw_start, listed, Sighting};
use starsim::ship::{Ship, ShipGoal, ShipJob};
use starsim::simulation::Simulation;

/// Sun, stations on 1, 2 and 4, ore on 3 and 5.
fn world(seed: u64, stocks: [usize; 3]) -> Simulation {
    let mut sim = Simulation::new(SimConfig::default(), StdRng::seed_from_u64(seed));
    for _ in 0..5 {
        sim.add_planet();
    }
    sim.set_feature(1, PlanetFeature::Station { stock: stocks[0] });
    sim.set_feature(2, PlanetFeature::Station { stock: stocks[1] });
    sim.set_feature(3, PlanetFeature::Ore);
    sim.set_feature(4, PlanetFeature::Station { stock: stocks[2] });
    sim.set_feature(5, PlanetFeature::Ore);
    sim
}

fn stock(sim: &Simulation, b: usize) -> usize {
    sim.stock_at(b)
}

fn sighting(arrived: bool, prey_in_range: bool, keys: &[u64], sight: &[bool]) -> Sighting {
    Sighting {
        arrived,
        prey_in_range,
        body_keys: keys.to_vec(),
        ships_in_sight: sight.to_vec(),
    }
}

fn trader(cargo: bool, target: usize) -> Ship {
    Ship { goal: ShipGoal::Visit { target }, job: ShipJob::Trader { cargo } }
}

fn miner(goal: ShipGoal) -> Ship {
    Ship { goal, job: ShipJob::Miner }
}

fn pirate(goal: ShipGoal) -> Ship {
    Ship { goal, job: ShipJob::Pirate }
}

const KEYS: [u64; 6] = [0, 30, 10, 25, 20, 15];

#[test]
fn a_ship_that_has_not_arrived_stays_on_course() {
    let mut sim = world(1, [5, 0, 0]);
    sim.ships.push(trader(true, 1));
    sim.ships.push(miner(ShipGoal::Visit { target: 3 }));
    assert!(sim.is_wf());
    let before = sim.ships.clone();
    let quiet = Sighting::quiet();
    assert_eq!(sim.update_ship(0, &quiet), None);
    assert_eq!(sim.update_ship(1, &quiet), None);
    assert_eq!(sim.ships, before);
    assert_eq!(stock(&sim, 1), 5);
}

#[test]
fn a_loaded_trader_unloads_and_leaves_empty_for_another_station() {
    for seed in 0..20 {
        let mut sim = world(seed, [5, 0, 0]);
        sim.ships.push(trader(true, 1));
        let held = sim.update_ship(0, &sighting(true, false, &KEYS, &[]));
        assert_eq!(held, None);
        assert_eq!(stock(&sim, 1), 6);
        assert_eq!(stock(&sim, 2), 0);
        assert_eq!(stock(&sim, 4), 0);
        assert_eq!(sim.ships[0].job, ShipJob::Trader { cargo: false });
        match sim.ships[0].goal {
            ShipGoal::Visit { target } => assert!(target == 2 || target == 4),
            other => panic!("unexpected goal {:?}", other),
        }
        assert!(sim.is_wf());
    }
}

#[test]
fn a_trader_picks_every_other_station_sooner_or_later() {
    let mut seen = Vec::new();
    for seed in 0..40 {
        let mut sim = world(seed, [0, 0, 0]);
        sim.ships.push(trader(false, 2));
        sim.update_ship_goal(0, &Sighting::quiet());
        if let ShipGoal::Visit { target } = sim.ships[0].goal {
            assert_ne!(target, 2);
            seen.push(target);
        }
    }
    assert!(seen.contains(&1) && seen.contains(&4));
    assert!(seen.iter().all(|&t| t == 1 || t == 4));
}

#[test]
fn an_empty_trader_loads_where_the_stock_is_higher() {
    let mut sim = world(3, [5, 2, 9]);
    sim.ships.push(trader(false, 1));
    sim.trader_arrives(0, 2);
    assert_eq!(stock(&sim, 1), 4);
    assert_eq!(stock(&sim, 2), 2);
    assert_eq!(sim.ships[0], trader(true, 2));
}

#[test]
fn an_empty_trader_leaves_empty_where_the_stock_is_not_higher() {
    let mut sim = world(3, [5, 2, 9]);
    sim.ships.push(trader(false, 1));
    sim.trader_arrives(0, 4);
    assert_eq!(stock(&sim, 1), 5);
    assert_eq!(stock(&sim, 4), 9);
    assert_eq!(sim.ships[0], trader(false, 4));

    let mut sim = world(3, [5, 5, 9]);
    sim.ships.push(trader(false, 1));
    sim.trader_arrives(0, 2);
    assert_eq!(stock(&sim, 1), 5);
    assert_eq!(sim.ships[0], trader(false, 2));
}

#[test]
fn a_trader_that_unloaded_does_not_load_again() {
    let mut sim = world(3, [5, 2, 9]);
    sim.ships.push(trader(true, 1));
    sim.trader_arrives(0, 2);
    assert_eq!(stock(&sim, 1), 6);
    assert_eq!(stock(&sim, 2), 2);
    assert_eq!(sim.ships[0], trader(false, 2));
}

#[test]
fn other_stations_leave_out_the_one_named() {
    let sim = world(1, [0, 0, 0]);
    assert_eq!(sim.other_stations(1), vec![2, 4]);
    assert_eq!(sim.other_stations(2), vec![1, 4]);
    assert_eq!(sim.other_stations(4), vec![1, 2]);
    assert_eq!(sim.other_stations(3), vec![1, 2, 4]);
}

#[test]
fn a_miner_at_a_station_unloads_one_unit_and_heads_for_the_nearest_ore() {
    let mut sim = world(4, [0, 7, 0]);
    sim.ships.push(miner(ShipGoal::Visit { target: 2 }));
    let held = sim.update_ship(0, &sighting(true, false, &KEYS, &[]));
    assert_eq!(held, None);
    assert_eq!(stock(&sim, 2), 8);
    assert_eq!(stock(&sim, 1), 0);
    assert_eq!(sim.ships[0], miner(ShipGoal::Visit { target: 5 }));
    assert!(sim.is_wf());

    let mut sim = world(4, [0, 7, 0]);
    sim.ships.push(miner(ShipGoal::Visit { target: 2 }));
    sim.update_ship(0, &sighting(true, false, &[0, 1, 1, 1, 1, 1], &[]));
    assert_eq!(sim.ships[0], miner(ShipGoal::Visit { target: 3 }));
}

#[test]
fn a_delivery_goes_where_it_is_told() {
    let mut sim = world(4, [0, 7, 0]);
    sim.ships.push(miner(ShipGoal::Visit { target: 2 }));
    sim.miner_delivers(0, 3);
    assert_eq!(stock(&sim, 2), 8);
    assert_eq!(sim.ships[0], miner(ShipGoal::Visit { target: 3 }));
}

#[test]
fn a_miner_at_ore_starts_to_wait_from_a_drawn_start() {
    let mut starts = Vec::new();
    for seed in 0..60 {
        let mut sim = world(seed, [0, 0, 0]);
        sim.ships.push(miner(ShipGoal::Visit { target: 3 }));
        sim.update_ship(0, &sighting(true, false, &KEYS, &[]));
        match sim.ships[0].goal {
            ShipGoal::Wait { target, progress } => {
                assert_eq!(target, 3);
                assert!((-20..20).contains(&progress));
                starts.push(progress);
            }
            other => panic!("unexpected goal {:?}", other),
        }
        assert_eq!(sim.ships[0].job, ShipJob::Miner);
        assert!(sim.is_wf());
    }
    assert!(starts.iter().any(|&s| s != starts[0]));
}

#[test]
fn a_wait_counts_up_and_ends_at_the_harvest_duration() {
    let mut sim = world(5, [0, 0, 0]);
    sim.ships.push(miner(ShipGoal::Wait { target: 3, progress: 97 }));
    let see = sighting(false, false, &KEYS, &[]);
    sim.update_ship(0, &see);
    assert_eq!(sim.ships[0], miner(ShipGoal::Wait { target: 3, progress: 98 }));
    sim.update_ship(0, &see);
    sim.update_ship(0, &see);
    assert_eq!(sim.ships[0], miner(ShipGoal::Wait { target: 3, progress: 100 }));
    sim.update_ship(0, &see);
    assert_eq!(sim.ships[0], miner(ShipGoal::Visit { target: 2 }));
    assert!(sim.is_wf());
}

#[test]
fn a_miner_done_waiting_heads_for_the_nearest_station() {
    let mut sim = world(5, [0, 0, 0]);
    sim.ships.push(miner(ShipGoal::Wait { target: 5, progress: 100 }));
    sim.update_ship(0, &sighting(false, false, &[0, 4, 4, 1, 4, 9], &[]));
    assert_eq!(sim.ships[0], miner(ShipGoal::Visit { target: 1 }));

    let mut sim = world(5, [0, 0, 0]);
    sim.ships.push(miner(ShipGoal::Wait { target: 5, progress: 100 }));
    sim.update_ship(0, &sighting(false, false, &[0, 4, 4, 1, 3, 9], &[]));
    assert_eq!(sim.ships[0], miner(ShipGoal::Visit { target: 4 }));
}

#[test]
fn a_wandering_pirate_scans_next() {
    let mut sim = world(6, [0, 0, 0]);
    sim.ships.push(pirate(ShipGoal::Wander));
    assert_eq!(sim.update_ship(0, &Sighting::quiet()), None);
    assert_eq!(sim.ships[0], pirate(ShipGoal::Scan));
}

#[test]
fn a_scan_that_finds_nothing_ends_in_wandering() {
    let mut sim = world(6, [0, 0, 0]);
    sim.ships.push(pirate(ShipGoal::Scan));
    sim.ships.push(trader(false, 1));
    sim.ships.push(trader(true, 2));
    sim.ships.push(miner(ShipGoal::Visit { target: 3 }));
    // the loaded trader is out of sight, the others carry nothing
    sim.update_ship(0, &sighting(false, false, &KEYS, &[true, true, false, true]));
    assert_eq!(sim.ships[0], pirate(ShipGoal::Wander));
    // a sighting that covers no ship sees none
    sim.ships[0].goal = ShipGoal::Scan;
    sim.update_ship(0, &Sighting::quiet());
    assert_eq!(sim.ships[0], pirate(ShipGoal::Wander));
}

#[test]
fn a_scan_picks_a_loaded_trader_in_sight() {
    let mut picked = Vec::new();
    let mut starts = Vec::new();
    for seed in 0..60 {
        let mut sim = world(seed, [0, 0, 0]);
        sim.ships.push(pirate(ShipGoal::Scan));
        sim.ships.push(trader(true, 1));
        sim.ships.push(trader(false, 2));
        sim.ships.push(trader(true, 4));
        sim.ships.push(trader(true, 1));
        let see = sighting(false, false, &KEYS, &[true, true, true, true, false]);
        assert_eq!(sim.prey_in_sight(&see), vec![1, 3]);
        sim.update_ship(0, &see);
        match sim.ships[0].goal {
            ShipGoal::Hunt { prey, progress } => {
                assert!(prey == 1 || prey == 3);
                assert!((-20..20).contains(&progress));
                picked.push(prey);
                starts.push(progress);
            }
            other => panic!("unexpected goal {:?}", other),
        }
        assert!(sim.is_wf());
    }
    assert!(picked.contains(&1) && picked.contains(&3));
    assert!(starts.iter().any(|&s| s != starts[0]));
}

#[test]
fn a_hunt_for_an_empty_trader_is_given_up() {
    let mut sim = world(7, [0, 0, 0]);
    sim.ships.push(pirate(ShipGoal::Hunt { prey: 1, progress: 3 }));
    sim.ships.push(trader(false, 1));
    let held = sim.update_ship(0, &sighting(false, true, &KEYS, &[]));
    assert_eq!(held, None);
    assert_eq!(sim.ships[0], pirate(ShipGoal::Wander));
    assert_eq!(sim.ships[1], trader(false, 1));
    assert!(sim.killed.is_empty());
}

#[test]
fn a_hunt_whose_prey_got_away_is_broken_off_and_leaves_the_cargo() {
    let mut sim = world(7, [0, 0, 0]);
    sim.ships.push(pirate(ShipGoal::Hunt { prey: 1, progress: 41 }));
    sim.ships.push(trader(true, 1));
    let held = sim.update_ship(0, &sighting(false, false, &KEYS, &[]));
    assert_eq!(held, None);
    assert_eq!(sim.ships[0], pirate(ShipGoal::Wander));
    assert_eq!(sim.ships[1], trader(true, 1));
    assert!(sim.killed.is_empty());
}

#[test]
fn a_hunt_in_range_holds_the_prey_and_counts() {
    let mut sim = world(7, [0, 0, 0]);
    sim.ships.push(trader(true, 1));
    sim.ships.push(pirate(ShipGoal::Hunt { prey: 0, progress: 39 }));
    let near = sighting(false, true, &KEYS, &[]);
    assert_eq!(sim.update_ship(1, &near), Some(0));
    assert_eq!(sim.ships[1], pirate(ShipGoal::Hunt { prey: 0, progress: 40 }));
    assert_eq!(sim.update_ship(1, &near), Some(0));
    assert_eq!(sim.ships[1], pirate(ShipGoal::Hunt { prey: 0, progress: 41 }));
    assert_eq!(sim.ships[0], trader(true, 1));
    assert!(sim.killed.is_empty());
    assert!(sim.is_wf());
}

#[test]
fn a_raid_that_always_kills_strips_and_lists_the_prey() {
    let mut sim = world(8, [0, 0, 0]);
    sim.config.death_prob = Ratio { numerator: 1, denominator: 1 };
    sim.ships.push(trader(true, 1));
    sim.ships.push(pirate(ShipGoal::Hunt { prey: 0, progress: 41 }));
    assert_eq!(sim.update_ship(1, &sighting(false, true, &KEYS, &[])), Some(0));
    assert_eq!(sim.ships[1], pirate(ShipGoal::Wander));
    assert_eq!(sim.ships[0], trader(false, 1));
    assert_eq!(sim.killed, vec![0]);
    assert!(sim.is_wf());
}

#[test]
fn a_raid_that_never_kills_only_strips_the_prey() {
    let mut sim = world(8, [0, 0, 0]);
    sim.config.death_prob = Ratio { numerator: 0, denominator: 1 };
    sim.ships.push(trader(true, 1));
    sim.ships.push(pirate(ShipGoal::Hunt { prey: 0, progress: 41 }));
    assert_eq!(sim.update_ship(1, &sighting(false, true, &KEYS, &[])), Some(0));
    assert_eq!(sim.ships[1], pirate(ShipGoal::Wander));
    assert_eq!(sim.ships[0], trader(false, 1));
    assert!(sim.killed.is_empty());
}

#[test]
fn a_raid_with_even_odds_goes_both_ways() {
    let mut kills = 0;
    for seed in 0..64 {
        let mut sim = world(seed, [0, 0, 0]);
        sim.config.death_prob = Ratio { numerator: 1, denominator: 2 };
        sim.ships.push(trader(true, 1));
        sim.ships.push(pirate(ShipGoal::Hunt { prey: 0, progress: 41 }));
        sim.update_ship(1, &sighting(false, true, &KEYS, &[]));
        assert_eq!(sim.ships[0], trader(false, 1));
        assert!(sim.killed.is_empty() || sim.killed == vec![0]);
        kills += sim.killed.len();
    }
    assert!(0 < kills && kills < 64);
}

#[test]
fn the_end_of_a_raid_lists_a_prey_once() {
    let mut sim = world(9, [0, 0, 0]);
    sim.ships.push(trader(true, 1));
    sim.ships.push(pirate(ShipGoal::Hunt { prey: 0, progress: 41 }));
    sim.ships.push(pirate(ShipGoal::Hunt { prey: 0, progress: 41 }));
    sim.raid_ends(1, true);
    assert_eq!(sim.killed, vec![0]);
    sim.raid_ends(2, true);
    assert_eq!(sim.killed, vec![0]);
    assert_eq!(sim.ships[0], trader(false, 1));
    assert_eq!(sim.ships[1], pirate(ShipGoal::Wander));
    assert_eq!(sim.ships[2], pirate(ShipGoal::Wander));

    let mut sim = world(9, [0, 0, 0]);
    sim.ships.push(trader(true, 1));
    sim.ships.push(pirate(ShipGoal::Hunt { prey: 0, progress: 41 }));
    sim.raid_ends(1, false);
    assert!(sim.killed.is_empty());
    assert_eq!(sim.ships[0], trader(false, 1));
}

#[test]
fn a_completed_hunt_strips_the_prey() {
    let mut sim = world(9, [0, 0, 0]);
    sim.ships.push(trader(true, 1));
    sim.ships.push(pirate(ShipGoal::Hunt { prey: 0, progress: 0 }));
    sim.update_ship_goal(1, &Sighting::quiet());
    assert_eq!(sim.ships[0], trader(false, 1));
    assert_eq!(sim.ships[1], pirate(ShipGoal::Wander));
    assert!(sim.killed.is_empty());
}

#[test]
fn counters_start_inside_their_span() {
    let mut prng = StdRng::seed_from_u64(10);
    let mut seen = Vec::new();
    for _ in 0..200 {
        let start = draw_start(&mut prng, Span { start: -3, end: 2 });
        assert!((-3..2).contains(&start));
        seen.push(start);
    }
    for value in -3..2 {
        assert!(seen.contains(&value));
    }
    for _ in 0..20 {
        assert_eq!(draw_start(&mut prng, Span { start: 7, end: 8 }), 7);
    }
    let wide = Span { start: isize::MIN, end: isize::MAX };
    let start = draw_start(&mut prng, wide);
    assert!(start < isize::MAX);
}

#[test]
fn listed_finds_what_is_there() {
    assert!(listed(&vec![4, 1, 9], 9));
    assert!(listed(&vec![4, 1, 9], 4));
    assert!(!listed(&vec![4, 1, 9], 2));
    assert!(!listed(&vec![], 0));
}

#[test]
fn states_that_the_rules_do_not_know_are_flagged() {
    let base = world(1, [0, 0, 0]);
    assert!(base.is_wf());
    let bad = [
        Ship { goal: ShipGoal::Wander, job: ShipJob::Miner },
        Ship { goal: ShipGoal::Scan, job: ShipJob::Trader { cargo: false } },
        Ship { goal: ShipGoal::Wait { target: 3, progress: 0 }, job: ShipJob::Trader { cargo: true } },
        Ship { goal: ShipGoal::Visit { target: 1 }, job: ShipJob::Pirate },
        Ship { goal: ShipGoal::Hunt { prey: 0, progress: 0 }, job: ShipJob::Miner },
        // a trader bound for an ore body, a miner bound for the sun
        trader(false, 3),
        miner(ShipGoal::Visit { target: 0 }),
        // targets and prey that do not exist, a pirate hunting itself
        miner(ShipGoal::Visit { target: 6 }),
        pirate(ShipGoal::Hunt { prey: 1, progress: 0 }),
        pirate(ShipGoal::Hunt { prey: 0, progress: 0 }),
        // counters past their end
        miner(ShipGoal::Wait { target: 3, progress: 101 }),
    ];
    for ship in bad {
        let mut sim = world(1, [0, 0, 0]);
        sim.ships.push(ship);
        assert!(!sim.is_wf(), "{:?} should be refused", ship);
    }
    let mut sim = world(1, [0, 0, 0]);
    sim.ships.push(trader(true, 1));
    sim.ships.push(pirate(ShipGoal::Hunt { prey: 0, progress: 42 }));
    assert!(!sim.is_wf());
    sim.ships[1].goal = ShipGoal::Hunt { prey: 0, progress: 41 };
    assert!(sim.is_wf());
    sim.killed = vec![0, 0];
    assert!(!sim.is_wf());
    sim.killed = vec![2];
    assert!(!sim.is_wf());
    sim.killed = vec![1, 0];
    assert!(sim.is_wf());
}

#[test]
fn systems_that_are_no_tree_or_lack_features_are_flagged() {
    let mut sim = world(1, [0, 0, 0]);
    sim.system[2].feat = None;
    sim.system[4].feat = None;
    assert!(!sim.is_wf());
    let mut sim = world(1, [0, 0, 0]);
    sim.system[3].feat = None;
    sim.system[5].feat = None;
    assert!(!sim.is_wf());
    let mut sim = world(1, [0, 0, 0]);
    sim.system[0].feat = Some(PlanetFeature::Ore);
    assert!(!sim.is_wf());
    let mut sim = world(1, [0, 0, 0]);
    sim.system[2].orbit = None;
    assert!(!sim.is_wf());
    let mut sim = world(1, [0, 0, 0]);
    sim.system[0].moon_indices.pop();
    assert!(!sim.is_wf());
    let mut sim = world(1, [0, 0, 0]);
    sim.system[0].moon_indices.swap(0, 1);
    assert!(!sim.is_wf());
    let mut sim = world(1, [0, 0, 0]);
    sim.system[1].moon_indices.push(2);
    assert!(!sim.is_wf());
    let mut sim = world(1, [0, 0, 0]);
    let mut orbit = sim.system[3].orbit.unwrap();
    orbit.parent_index = 3;
    sim.system[3].orbit = Some(orbit);
    assert!(!sim.is_wf());
    let mut sim = world(1, [0, 0, 0]);
    let mut orbit = sim.system[3].orbit.unwrap();
    orbit.speed = 4;
    sim.system[3].orbit = Some(orbit);
    assert!(!sim.is_wf());
    let mut sim = world(1, [0, 0, 0]);
    sim.config.raid_variance = Span { start: 1, end: 1 };
    assert!(!sim.is_wf());
}
