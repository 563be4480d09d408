//! The simulation and its view as a world of plain values.

use vstd::prelude::*;
use rand::rngs::StdRng;
use crate::config::SimConfig;
use crate::planet::Planet;
use crate::ship::Ship;
use crate::world::World;

verus! {

/// The simulation: the generator it draws from, the bodies, the ships, the
/// ships that await removal, and the settings.
pub struct Simulation {
    pub prng: StdRng,
    pub system: Vec<Planet>,
    pub ships: Vec<Ship>,
    pub killed: Vec<usize>,
    pub config: SimConfig,
}

impl View for Simulation {
    type V = World;

    open spec fn view(&self) -> World {
        World { system: self.system@, ships: self.ships@, killed: self.killed@ }
    }
}

impl Simulation {
    /// The settings are sound and so is the world under them.
    pub open spec fn wf(&self) -> bool {
        self.config.wf() && self@.wf(self.config)
    }

    /// All bodies, the sun first.
    pub fn planets(&self) -> (bodies: &Vec<Planet>)
        ensures
            bodies@ == self@.system,
    {
        &self.system
    }

    /// All ships, in registry order.
    pub fn ships(&self) -> (ships: &Vec<Ship>)
        ensures
            ships@ == self@.ships,
    {
        &self.ships
    }
}

} // verus!
