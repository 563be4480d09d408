use rand::rngs::StdRng;
use rand::SeedableRng;
use starsim::config::SimConfig;
use starsim::feature::PlanetFeature;
use starsim::ship::{Ship, ShipGoal, ShipJob};
use starsim::simulation::Simulation;

fn world(stocks: [usize; 2]) -> Simulation {
    let mut sim = Simulation::new(SimConfig::default(), StdRng::seed_from_u64(3));
    for _ in 0..3 {
        sim.add_planet();
    }
    sim.set_feature(1, PlanetFeature::Station { stock: stocks[0] });
    sim.set_feature(2, PlanetFeature::Station { stock: stocks[1] });
    sim.set_feature(3, PlanetFeature::Ore);
    sim
}

fn trader(cargo: bool, target: usize) -> Ship {
    Ship { goal: ShipGoal::Visit { target }, job: ShipJob::Trader { cargo } }
}

fn hunter(prey: usize, progress: isize) -> Ship {
    Ship { goal: ShipGoal::Hunt { prey, progress }, job: ShipJob::Pirate }
}

const WANDERER: Ship = Ship { goal: ShipGoal::Wander, job: ShipJob::Pirate };

fn crowd() -> Simulation {
    let mut sim = world([0, 0]);
    sim.ships = vec![
        trader(false, 1), // 0
        hunter(2, 5),     // 1
        trader(true, 2),  // 2
        hunter(4, -3),    // 3
        trader(true, 1),  // 4
        hunter(0, 9),     // 5
        trader(false, 2), // 6
        hunter(6, 1),     // 7
    ];
    sim
}

#[test]
fn removing_a_ship_patches_the_hunts() {
    let mut sim = crowd();
    sim.killed = vec![2];
    assert!(sim.is_wf());
    assert_eq!(sim.bury_first(), 2);
    assert_eq!(
        sim.ships,
        vec![
            trader(false, 1),
            WANDERER,
            hunter(3, -3),
            trader(true, 1),
            hunter(0, 9),
            trader(false, 2),
            hunter(5, 1),
        ]
    );
    assert!(sim.killed.is_empty());
    assert!(sim.is_wf());
}

#[test]
fn no_hunt_points_at_a_removed_ship_and_later_prey_move_down_by_one() {
    for k in [0usize, 2, 4, 6] {
        let before = crowd();
        let mut sim = crowd();
        sim.killed = vec![k];
        sim.remove_killed();
        assert_eq!(sim.ships.len(), before.ships.len() - 1);
        for (old_index, old) in before.ships.iter().enumerate() {
            if old_index == k {
                continue;
            }
            let new_index = if old_index < k { old_index } else { old_index - 1 };
            let new = sim.ships[new_index];
            assert_eq!(new.job, old.job);
            match old.goal {
                ShipGoal::Hunt { prey, progress } if prey == k => {
                    assert_eq!(new.goal, ShipGoal::Wander);
                    let _ = progress;
                }
                ShipGoal::Hunt { prey, progress } if prey > k => {
                    assert_eq!(new.goal, ShipGoal::Hunt { prey: prey - 1, progress });
                }
                other => assert_eq!(new.goal, other),
            }
        }
        assert!(sim.is_wf());
    }
}

#[test]
fn several_removals_take_the_ships_that_were_listed() {
    let mut sim = crowd();
    sim.killed = vec![4, 0, 6];
    assert!(sim.is_wf());
    let removed = sim.remove_killed();
    // 4 goes first; then 0; then what was 6 stands at 4
    assert_eq!(removed, vec![4, 0, 4]);
    assert_eq!(sim.ships, vec![hunter(1, 5), trader(true, 2), WANDERER, WANDERER, WANDERER]);
    assert!(sim.killed.is_empty());
    assert!(sim.is_wf());
}

#[test]
fn the_removal_order_keeps_a_parallel_list_parallel() {
    let mut sim = crowd();
    let mut names: Vec<usize> = (0..sim.ships.len()).collect();
    sim.killed = vec![6, 2, 4];
    let removed = sim.remove_killed();
    for k in removed {
        names.remove(k);
    }
    assert_eq!(names, vec![0, 1, 3, 5, 7]);
    let expected = crowd();
    for (at, &name) in names.iter().enumerate() {
        assert_eq!(sim.ships[at].job, expected.ships[name].job);
    }
}

#[test]
fn removing_nothing_changes_nothing() {
    let mut sim = crowd();
    let before = sim.ships.clone();
    assert!(sim.remove_killed().is_empty());
    assert_eq!(sim.ships, before);
}

#[test]
fn a_station_builds_a_trader_when_its_stock_exceeds_the_cost() {
    let mut sim = world([5, 4]);
    assert!(sim.is_wf());
    let built = sim.spawn_traders();
    assert_eq!(built, vec![1]);
    assert_eq!(sim.stock_at(1), 1);
    assert_eq!(sim.stock_at(2), 4);
    assert_eq!(sim.ships, vec![trader(false, 1)]);
    assert!(sim.is_wf());
    assert!(sim.spawn_traders().is_empty());
    assert_eq!(sim.ships.len(), 1);
}

#[test]
fn every_rich_station_builds_one_trader_a_tick() {
    let mut sim = world([20, 9]);
    sim.ships.push(WANDERER);
    assert_eq!(sim.spawn_traders(), vec![1, 2]);
    assert_eq!(sim.stock_at(1), 16);
    assert_eq!(sim.stock_at(2), 5);
    assert_eq!(sim.ships, vec![WANDERER, trader(false, 1), trader(false, 2)]);
    assert_eq!(sim.spawn_traders(), vec![1, 2]);
    assert_eq!(sim.stock_at(1), 12);
    assert_eq!(sim.stock_at(2), 1);
    assert_eq!(sim.ships.len(), 5);
}

#[test]
fn building_is_decided_body_by_body() {
    let mut sim = world([5, 4]);
    assert!(!sim.build_trader(0));
    assert!(!sim.build_trader(3));
    assert!(!sim.build_trader(2));
    assert!(sim.ships.is_empty());
    assert!(sim.build_trader(1));
    assert_eq!(sim.stock_at(1), 1);
    assert_eq!(sim.ships, vec![trader(false, 1)]);
    assert!(!sim.build_trader(1));
}
