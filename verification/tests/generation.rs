use rand::rngs::StdRng;
use rand::SeedableRng;
use starsim::config::{Ratio, SimConfig, Span};
use starsim::feature::PlanetFeature;
use starsim::query::{ore_indices, station_indices};
use starsim::settle::GenerationError;
use starsim::ship::{Ship, ShipGoal, ShipJob};
use starsim::simulation::Simulation;
use starsim::validate::{is_populated, is_tree_wf};

fn fresh(seed: u64) -> Simulation {
    Simulation::new(SimConfig::default(), StdRng::seed_from_u64(seed))
}

/// A sun with `planets` planets, planet `p` (counted from 0) with `moons[p]` moons.
fn shaped(seed: u64, moons: &[usize]) -> Simulation {
    let mut sim = fresh(seed);
    for &count in moons {
        let planet = sim.add_planet();
        for _ in 0..count {
            sim.add_moon(planet);
        }
    }
    sim
}

#[test]
fn new_simulation_holds_only_the_sun() {
    let sim = fresh(7);
    assert_eq!(sim.planets().len(), 1);
    assert!(sim.planets()[0].orbit.is_none());
    assert!(sim.planets()[0].feat.is_none());
    assert!(sim.planets()[0].moon_indices.is_empty());
    assert!(sim.ships().is_empty());
    assert!(sim.killed.is_empty());
    assert!(is_tree_wf(&sim.system));
}

#[test]
fn default_config_has_the_documented_values() {
    let config = SimConfig::default();
    assert_eq!(config.pl_moon_prob, Ratio { numerator: 1, denominator: 2 });
    assert_eq!(config.pl_feat_prob, Ratio { numerator: 4, denominator: 5 });
    assert_eq!(config.ship_cost, 4);
    assert_eq!(config.miner_count, 16);
    assert_eq!(config.harvest_duration, 100);
    assert_eq!(config.harvest_variance, Span { start: -20, end: 20 });
    assert_eq!(config.pirate_count, 8);
    assert_eq!(config.raid_duration, 40);
    assert_eq!(config.raid_variance, Span { start: -20, end: 20 });
    assert_eq!(config.death_prob, Ratio { numerator: 2, denominator: 5 });
    assert!(config.is_wf());
}

#[test]
fn config_with_a_bad_probability_or_an_empty_span_is_refused() {
    let mut config = SimConfig::default();
    config.death_prob = Ratio { numerator: 3, denominator: 2 };
    assert!(!config.is_wf());
    let mut config = SimConfig::default();
    config.pl_feat_prob = Ratio { numerator: 0, denominator: 0 };
    assert!(!config.is_wf());
    let mut config = SimConfig::default();
    config.harvest_variance = Span { start: 5, end: 5 };
    assert!(!config.is_wf());
    let mut config = SimConfig::default();
    config.harvest_variance = Span { start: 0, end: 102 };
    assert!(!config.is_wf());
    let mut config = SimConfig::default();
    config.harvest_variance = Span { start: 0, end: 101 };
    assert!(config.is_wf());
    let mut config = SimConfig::default();
    config.raid_variance = Span { start: 0, end: 43 };
    assert!(!config.is_wf());
}

#[test]
fn planets_and_moons_form_a_tree() {
    let sim = shaped(1, &[2, 0, 1]);
    // sun, planet 1 with moons 2 and 3, planet 4, planet 5 with moon 6
    assert_eq!(sim.planets().len(), 7);
    assert_eq!(sim.planets()[0].moon_indices, vec![1, 4, 5]);
    assert_eq!(sim.planets()[1].moon_indices, vec![2, 3]);
    assert_eq!(sim.planets()[5].moon_indices, vec![6]);
    let parents: Vec<usize> =
        sim.planets().iter().skip(1).map(|p| p.orbit.unwrap().parent_index).collect();
    assert_eq!(parents, vec![0, 1, 1, 0, 0, 5]);
    for (index, body) in sim.planets().iter().enumerate().skip(1) {
        let orbit = body.orbit.unwrap();
        assert!(orbit.parent_index < index);
        assert!((1..=3).contains(&orbit.speed));
        assert!(body.feat.is_none());
    }
    assert!(is_tree_wf(&sim.system));
}

#[test]
fn orbit_speeds_and_directions_vary_with_the_draws() {
    let sim = shaped(11, &[0; 40]);
    let speeds: Vec<usize> = sim.planets().iter().skip(1).map(|p| p.orbit.unwrap().speed).collect();
    assert!(speeds.contains(&1) && speeds.contains(&2) && speeds.contains(&3));
    let turns: Vec<bool> = sim.planets().iter().skip(1).map(|p| p.orbit.unwrap().ccw).collect();
    assert!(turns.contains(&true) && turns.contains(&false));
}

#[test]
fn discarding_cuts_back_to_before_the_last_planet() {
    let mut sim = shaped(2, &[1, 2]);
    assert_eq!(sim.planets().len(), 6);
    assert!(sim.discard_planet());
    assert_eq!(sim.planets().len(), 3);
    assert_eq!(sim.planets()[0].moon_indices, vec![1]);
    assert_eq!(sim.planets()[1].moon_indices, vec![2]);
    assert!(is_tree_wf(&sim.system));
    assert!(sim.discard_planet());
    assert_eq!(sim.planets().len(), 1);
    assert!(sim.planets()[0].moon_indices.is_empty());
    assert!(!sim.discard_planet());
    assert_eq!(sim.planets().len(), 1);
}

#[test]
fn discarding_refuses_when_a_later_body_orbits_an_older_planet() {
    let mut sim = shaped(3, &[0, 0]);
    sim.add_moon(1);
    assert_eq!(sim.planets().len(), 4);
    assert!(!sim.discard_planet());
    assert_eq!(sim.planets().len(), 4);
    assert_eq!(sim.planets()[0].moon_indices, vec![1, 2]);
    assert_eq!(sim.planets()[1].moon_indices, vec![3]);
}

#[test]
fn moon_coin_follows_the_limit_and_the_odds() {
    let mut sim = fresh(4);
    sim.config.pl_moon_prob = Ratio { numerator: 1, denominator: 1 };
    for _ in 0..20 {
        assert!(sim.moon_wanted(true));
        assert!(!sim.moon_wanted(false));
    }
    sim.config.pl_moon_prob = Ratio { numerator: 0, denominator: 1 };
    for _ in 0..20 {
        assert!(!sim.moon_wanted(true));
    }
    sim.config.pl_moon_prob = Ratio { numerator: 1, denominator: 2 };
    let outcomes: Vec<bool> = (0..64).map(|_| sim.moon_wanted(true)).collect();
    assert!(outcomes.contains(&true) && outcomes.contains(&false));
}

#[test]
fn too_small_a_system_cannot_be_settled() {
    for planets in 0..3 {
        let mut sim = shaped(5, &vec![0; planets]);
        assert_eq!(sim.place_features(), Err(GenerationError::TooFewBodies));
        assert_eq!(sim.planets().len(), planets + 1);
        assert!(sim.planets().iter().all(|p| p.feat.is_none()));
    }
}

#[test]
fn smallest_system_gets_two_stations_and_ore_between() {
    for seed in 0..20 {
        let mut sim = shaped(seed, &[0, 0, 0]);
        assert_eq!(sim.place_features(), Ok(()));
        assert!(sim.planets()[0].feat.is_none());
        assert_eq!(sim.planets()[1].feat, Some(PlanetFeature::Station { stock: 0 }));
        assert_eq!(sim.planets()[2].feat, Some(PlanetFeature::Ore));
        assert_eq!(sim.planets()[3].feat, Some(PlanetFeature::Station { stock: 0 }));
        assert!(sim.is_wf());
    }
}

#[test]
fn settled_systems_keep_their_guarantees() {
    for seed in 0..30 {
        let mut sim = shaped(seed, &[1, 0, 2, 3, 0, 1]);
        let count = sim.planets().len();
        let shape: Vec<_> =
            sim.planets().iter().map(|p| (p.orbit, p.moon_indices.clone())).collect();
        assert_eq!(sim.place_features(), Ok(()));
        assert_eq!(sim.planets().len(), count);
        let after: Vec<_> =
            sim.planets().iter().map(|p| (p.orbit, p.moon_indices.clone())).collect();
        assert_eq!(shape, after);
        assert!(sim.planets()[0].orbit.is_none());
        assert!(sim.planets()[0].feat.is_none());
        assert_eq!(sim.planets()[1].feat, Some(PlanetFeature::Station { stock: 0 }));
        assert_eq!(sim.planets()[count - 1].feat, Some(PlanetFeature::Station { stock: 0 }));
        let ores = ore_indices(&sim.system);
        assert!(ores.iter().any(|&c| 2 <= c && c < count - 1));
        assert!(station_indices(&sim.system).len() >= 2);
        for body in sim.planets() {
            if let Some(PlanetFeature::Station { stock }) = body.feat {
                assert_eq!(stock, 0);
            }
        }
        assert!(is_tree_wf(&sim.system));
        assert!(is_populated(&sim.system));
        assert!(sim.is_wf());
    }
}

#[test]
fn feature_odds_of_zero_place_only_the_guaranteed_features() {
    let mut ore_at = Vec::new();
    for seed in 0..20 {
        let mut sim = shaped(seed, &[0; 9]);
        sim.config.pl_feat_prob = Ratio { numerator: 0, denominator: 1 };
        assert_eq!(sim.place_features(), Ok(()));
        assert_eq!(station_indices(&sim.system), vec![1, 9]);
        let ores = ore_indices(&sim.system);
        assert_eq!(ores.len(), 1);
        assert!(2 <= ores[0] && ores[0] < 9);
        ore_at.push(ores[0]);
        let featured = sim.planets().iter().filter(|p| p.feat.is_some()).count();
        assert_eq!(featured, 3);
    }
    assert!(ore_at.iter().any(|&at| at != 2));
    assert!(ore_at.iter().any(|&at| at != ore_at[0]));
}

#[test]
fn feature_odds_of_one_leave_only_the_sun_bare() {
    let mut kinds = Vec::new();
    for seed in 0..20 {
        let mut sim = shaped(seed, &[0; 9]);
        sim.config.pl_feat_prob = Ratio { numerator: 1, denominator: 1 };
        assert_eq!(sim.place_features(), Ok(()));
        assert!(sim.planets()[0].feat.is_none());
        assert!(sim.planets().iter().skip(1).all(|p| p.feat.is_some()));
        kinds.push(station_indices(&sim.system).len());
    }
    assert!(kinds.iter().any(|&n| n != kinds[0]));
}

#[test]
fn a_feature_that_was_set_survives_settling_unless_a_guarantee_takes_its_place() {
    let mut sim = shaped(6, &[0; 3]);
    sim.set_feature(2, PlanetFeature::Station { stock: 9 });
    sim.set_feature(1, PlanetFeature::Ore);
    assert_eq!(sim.planets()[2].feat, Some(PlanetFeature::Station { stock: 9 }));
    assert_eq!(sim.place_features(), Ok(()));
    assert_eq!(sim.planets()[1].feat, Some(PlanetFeature::Station { stock: 0 }));
    assert_eq!(sim.planets()[2].feat, Some(PlanetFeature::Ore));
    assert_eq!(sim.planets()[3].feat, Some(PlanetFeature::Station { stock: 0 }));
}

#[test]
fn guaranteed_features_go_where_they_are_told() {
    let mut sim = shaped(8, &[0; 5]);
    sim.place_guaranteed(3);
    let feats: Vec<_> = sim.planets().iter().map(|p| p.feat).collect();
    assert_eq!(
        feats,
        vec![
            None,
            Some(PlanetFeature::Station { stock: 0 }),
            None,
            Some(PlanetFeature::Ore),
            None,
            Some(PlanetFeature::Station { stock: 0 }),
        ]
    );
}

#[test]
fn endowing_needs_the_coin_and_an_empty_body() {
    let mut sim = shaped(9, &[0; 3]);
    sim.endow(1, false, 0);
    assert_eq!(sim.planets()[1].feat, None);
    sim.endow(1, true, 0);
    assert_eq!(sim.planets()[1].feat, Some(PlanetFeature::Station { stock: 0 }));
    sim.endow(1, true, 1);
    assert_eq!(sim.planets()[1].feat, Some(PlanetFeature::Station { stock: 0 }));
    sim.endow(2, true, 1);
    assert_eq!(sim.planets()[2].feat, Some(PlanetFeature::Ore));
}

#[test]
fn populating_adds_miners_bound_for_ore_then_wandering_pirates() {
    for seed in 0..10 {
        let mut sim = shaped(seed, &[1, 1, 1, 1]);
        sim.place_features().unwrap();
        sim.populate();
        assert_eq!(sim.ships().len(), 24);
        let ores = ore_indices(&sim.system);
        for ship in &sim.ships()[..16] {
            assert_eq!(ship.job, ShipJob::Miner);
            match ship.goal {
                ShipGoal::Visit { target } => assert!(ores.contains(&target)),
                other => panic!("a miner starts on a visit, not {:?}", other),
            }
        }
        for ship in &sim.ships()[16..] {
            assert_eq!(*ship, Ship { goal: ShipGoal::Wander, job: ShipJob::Pirate });
        }
        assert!(sim.is_wf());
    }
}

#[test]
fn a_new_ship_is_bound_for_body_zero() {
    let ship = Ship::new(ShipJob::Trader { cargo: false });
    assert_eq!(ship.goal, ShipGoal::Visit { target: 0 });
    assert_eq!(ship.job, ShipJob::Trader { cargo: false });
    assert!(!ship.has_cargo());
    assert!(Ship { goal: ShipGoal::Wander, job: ShipJob::Trader { cargo: true } }.has_cargo());
    assert!(!Ship::new(ShipJob::Miner).has_cargo());
    assert!(!Ship::new(ShipJob::Pirate).has_cargo());
}

#[test]
fn same_seed_gives_the_same_system() {
    let build = |seed: u64| {
        let mut sim = shaped(seed, &[2, 1, 0, 3]);
        sim.place_features().unwrap();
        sim.populate();
        let bodies: Vec<_> = sim.planets().iter().map(|p| (p.orbit, p.feat)).collect();
        (bodies, sim.ships().clone())
    };
    assert_eq!(build(42), build(42));
}
