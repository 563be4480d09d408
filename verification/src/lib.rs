//! Discrete core of a star-system simulation: the body tree, the ship
//! registry, the station economy and the per-ship goal state machine.
//!
//! The library holds no geometry. Whatever depends on positions reaches it as
//! plain values: booleans for range and arrival tests, integer keys for
//! distance orderings. Whoever moves the bodies and the ships keeps their
//! positions alongside the bodies and ships held here, index by index.

pub mod config;
pub mod descent;
pub mod economy;
pub mod feature;
pub mod generate;
pub mod laws;
pub mod machine;
pub mod orbits;
pub mod planet;
pub mod query;
pub mod random;
pub mod registry;
pub mod settle;
pub mod ship;
pub mod simulation;
pub mod system;
pub mod tick;
pub mod validate;
pub mod world;

pub use config::{Ratio, SimConfig, Span};
pub use feature::PlanetFeature;
pub use machine::Sighting;
pub use planet::{Orbit, Planet};
pub use settle::GenerationError;
pub use ship::{Ship, ShipGoal, ShipJob};
pub use simulation::Simulation;
pub use tick::TickReport;
