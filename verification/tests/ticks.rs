use rand::rngs::StdRng;
use rand::SeedableRng;
use starsim::config::{Ratio, SimConfig};
use starsim::feature::PlanetFeature;
use starsim::machine::Sighting;
use starsim::query::station_indices;
use starsim::ship::{Ship, ShipGoal, ShipJob};
use starsim::simulation::Simulation;

fn units(sim: &Simulation) -> usize {
    let stocked: usize = sim
        .planets()
        .iter()
        .map(|p| match p.feat {
            Some(PlanetFeature::Station { stock }) => stock,
            _ => 0,
        })
        .sum();
    let afloat = sim.ships().iter().filter(|s| s.has_cargo()).count();
    stocked + afloat
}

fn sighting(arrived: bool, prey_in_range: bool, keys: Vec<u64>, sight: Vec<bool>) -> Sighting {
    Sighting { arrived, prey_in_range, body_keys: keys, ships_in_sight: sight }
}

/// Two stations, one ore body, no moon.
fn outpost(seed: u64) -> Simulation {
    let mut sim = Simulation::new(SimConfig::default(), StdRng::seed_from_u64(seed));
    for _ in 0..3 {
        sim.add_planet();
    }
    sim.set_feature(1, PlanetFeature::Station { stock: 0 });
    sim.set_feature(2, PlanetFeature::Station { stock: 0 });
    sim.set_feature(3, PlanetFeature::Ore);
    sim
}

#[test]
fn a_lone_miner_delivers_one_unit_per_round_trip() {
    let mut sim = outpost(1);
    sim.ships.push(Ship { goal: ShipGoal::Visit { target: 3 }, job: ShipJob::Miner });
    assert!(sim.can_update());
    let mut headed_for_station = 0;
    let mut ticks = 0;
    let mut last = sim.ships[0].goal;
    while sim.stock_at(2) < 2 {
        // the miner arrives wherever it goes within the tick; station 2 is nearer
        let see = sighting(true, false, vec![0, 9, 4, 6], vec![]);
        let before = units(&sim);
        let report = sim.update(&vec![see]);
        assert!(report.built.is_empty() && report.held.is_empty() && report.removed.is_empty());
        let goal = sim.ships[0].goal;
        if goal != last && goal == (ShipGoal::Visit { target: 2 }) {
            headed_for_station += 1;
        }
        let delivered = matches!(last, ShipGoal::Visit { target: 2 });
        assert_eq!(units(&sim), before + usize::from(delivered));
        last = goal;
        ticks += 1;
        assert!(ticks < 1000);
        assert!(sim.is_wf());
    }
    assert_eq!(headed_for_station, 2);
    assert_eq!(sim.stock_at(2), 2);
    assert_eq!(sim.stock_at(1), 0);
    assert_eq!(units(&sim), 2);
    assert_eq!(sim.ships.len(), 1);
    // a harvest takes between 80 and 120 ticks of waiting
    assert!(ticks >= 2 * (80 + 3) && ticks <= 2 * (121 + 3));
}

#[test]
fn a_tick_spawns_then_moves_then_removes() {
    let mut sim = outpost(2);
    sim.config.death_prob = Ratio { numerator: 1, denominator: 1 };
    sim.system[1].feat = Some(PlanetFeature::Station { stock: 6 });
    sim.ships = vec![
        Ship { goal: ShipGoal::Visit { target: 1 }, job: ShipJob::Trader { cargo: true } },
        Ship { goal: ShipGoal::Hunt { prey: 0, progress: 41 }, job: ShipJob::Pirate },
        Ship { goal: ShipGoal::Hunt { prey: 0, progress: 0 }, job: ShipJob::Pirate },
    ];
    assert!(sim.is_wf());
    let sightings = vec![
        Sighting::quiet(),
        sighting(false, true, vec![], vec![]),
        sighting(false, true, vec![], vec![]),
    ];
    let report = sim.update(&sightings);
    assert_eq!(report.built, vec![1]);
    assert_eq!(report.held, vec![0]);
    assert_eq!(report.removed, vec![0]);
    assert_eq!(sim.stock_at(1), 2);
    // the prey is gone, both pirates wander, the new trader has not moved
    assert_eq!(
        sim.ships,
        vec![
            Ship { goal: ShipGoal::Wander, job: ShipJob::Pirate },
            Ship { goal: ShipGoal::Wander, job: ShipJob::Pirate },
            Ship { goal: ShipGoal::Visit { target: 1 }, job: ShipJob::Trader { cargo: false } },
        ]
    );
    assert!(sim.killed.is_empty());
    assert!(sim.is_wf());
}

#[test]
fn a_trader_built_in_a_tick_takes_its_turn_without_a_sighting() {
    let mut sim = outpost(3);
    sim.system[2].feat = Some(PlanetFeature::Station { stock: 5 });
    let report = sim.update(&vec![]);
    assert_eq!(report.built, vec![2]);
    assert_eq!(
        sim.ships,
        vec![Ship { goal: ShipGoal::Visit { target: 2 }, job: ShipJob::Trader { cargo: false } }]
    );
    assert_eq!(sim.stock_at(2), 1);
}

#[test]
fn trade_without_mining_or_piracy_conserves_the_ore() {
    let mut sim = outpost(4);
    sim.system[1].feat = Some(PlanetFeature::Station { stock: 3 });
    sim.system[2].feat = Some(PlanetFeature::Station { stock: 1 });
    sim.ships = vec![
        Ship { goal: ShipGoal::Visit { target: 1 }, job: ShipJob::Trader { cargo: false } },
        Ship { goal: ShipGoal::Visit { target: 2 }, job: ShipJob::Trader { cargo: true } },
        Ship { goal: ShipGoal::Visit { target: 1 }, job: ShipJob::Trader { cargo: false } },
    ];
    let total = units(&sim);
    assert_eq!(total, 5);
    for tick in 0..500 {
        let sightings: Vec<Sighting> =
            (0..3).map(|s| sighting((tick + s) % 3 != 0, false, vec![], vec![])).collect();
        let report = sim.update(&sightings);
        assert!(report.built.is_empty());
        assert_eq!(units(&sim), total);
        assert!(sim.is_wf());
    }
    assert_eq!(sim.ships.len(), 3);
}

#[test]
fn a_thousand_ticks_leave_the_bodies_as_they_were() {
    let mut sim = Simulation::new(SimConfig::default(), StdRng::seed_from_u64(2024));
    for moons in [2usize, 0, 1, 3, 0, 1] {
        let planet = sim.add_planet();
        for _ in 0..moons {
            sim.add_moon(planet);
        }
    }
    sim.place_features().unwrap();
    sim.populate();
    assert!(sim.planets().len() >= 4);
    assert!(station_indices(&sim.system).len() >= 2);
    assert!(!sim.planets_with_feature(Some(PlanetFeature::Ore)).is_empty());
    let shape: Vec<_> = sim.planets().iter().map(|p| (p.orbit, p.moon_indices.clone())).collect();
    let kinds: Vec<_> = sim.planets().iter().map(|p| p.feat.map(|f| f.is_same_kind(&PlanetFeature::Ore))).collect();
    let bodies = sim.planets().len();
    let mut built = 0;
    let mut removed = 0;
    for tick in 0..1000u64 {
        let count = sim.ships().len();
        let sightings: Vec<Sighting> = (0..count)
            .map(|s| {
                let mix = (tick * 31 + s as u64 * 17) % 7;
                let slow = matches!(sim.ships()[s].job, ShipJob::Trader { .. });
                let arrived = if slow { (tick + s as u64) % 97 == 0 } else { mix < 2 };
                let keys = (0..bodies as u64).map(|b| (b * 13 + tick + s as u64) % 11).collect();
                let sight = (0..count).map(|t| (t + s + tick as usize) % 3 == 0).collect();
                sighting(arrived, true, keys, sight)
            })
            .collect();
        let before = units(&sim);
        let ships_before = sim.ships().len();
        let report = sim.update(&sightings);
        built += report.built.len();
        removed += report.removed.len();
        assert_eq!(sim.ships().len(), ships_before + report.built.len() - report.removed.len());
        assert!(units(&sim) + 4 * report.built.len() + report.held.len() + report.removed.len() >= before);
        assert!(sim.is_wf());
        assert!(sim.killed.is_empty());
    }
    let after: Vec<_> = sim.planets().iter().map(|p| (p.orbit, p.moon_indices.clone())).collect();
    assert_eq!(shape, after);
    let kinds_after: Vec<_> = sim.planets().iter().map(|p| p.feat.map(|f| f.is_same_kind(&PlanetFeature::Ore))).collect();
    assert_eq!(kinds, kinds_after);
    assert!(sim.planets()[0].orbit.is_none() && sim.planets()[0].feat.is_none());
    assert!(built > 0);
    assert!(removed > 0);
}

#[test]
fn a_full_station_or_an_unknown_state_cannot_be_ticked() {
    let mut sim = outpost(5);
    assert!(sim.can_update());
    assert!(sim.has_room(1));
    sim.system[1].feat = Some(PlanetFeature::Station { stock: usize::MAX - 3 });
    assert!(sim.has_room(3));
    assert!(!sim.has_room(4));
    assert!(!sim.can_update());
    sim.system[1].feat = Some(PlanetFeature::Station { stock: usize::MAX - 4 });
    assert!(sim.can_update());
    sim.ships.push(Ship { goal: ShipGoal::Wander, job: ShipJob::Pirate });
    assert!(!sim.can_update());
    let mut sim = outpost(5);
    sim.ships.push(Ship { goal: ShipGoal::Wander, job: ShipJob::Miner });
    assert!(!sim.can_update());
}
