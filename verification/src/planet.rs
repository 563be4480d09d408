//! Bodies and their orbits.

use vstd::prelude::*;
use rand::rngs::StdRng;
use crate::feature::PlanetFeature;
use crate::random::{draw_in_range, flip};

verus! {

/// How a body revolves around its parent. Distance and phase are geometry and
/// are kept by whoever draws the system.
#[derive(Clone, Copy, Debug, PartialEq, Eq, Structural)]
pub struct Orbit {
    /// The body this orbit circles.
    pub parent_index: usize,
    /// Angular speed multiplier, counted in halves: 1, 2 or 3.
    pub speed: usize,
    /// Whether the body revolves counter-clockwise.
    pub ccw: bool,
}

impl Orbit {
    /// A speed multiplier is one, two or three halves.
    pub open spec fn wf(&self) -> bool {
        1 <= self.speed <= 3
    }

    /// An orbit around `parent_index` with a random speed and direction.
    pub fn new(parent_index: usize, prng: &mut StdRng) -> (orbit: Orbit)
        ensures
            orbit.parent_index == parent_index,
            orbit.wf(),
    {
        let speed = draw_in_range(prng, 1, 4);
        let ccw = flip(prng, 1, 2);
        Orbit { parent_index, speed, ccw }
    }
}

/// A celestial body: the sun, a planet or a moon.
#[derive(Debug)]
pub struct Planet {
    pub orbit: Option<Orbit>,
    pub feat: Option<PlanetFeature>,
    pub moon_indices: Vec<usize>,
}

impl Planet {
    /// A body with no orbit, no feature and no moons.
    pub fn new() -> (planet: Planet)
        ensures
            planet.orbit is None,
            planet.feat is None,
            planet.moon_indices@ == Seq::<usize>::empty(),
    {
        Planet { orbit: None, feat: None, moon_indices: Vec::new() }
    }

    /// The stock this body holds: that of its station, or nothing.
    pub open spec fn stock(&self) -> int {
        match self.feat {
            Some(PlanetFeature::Station { stock }) => stock as int,
            _ => 0,
        }
    }

    pub open spec fn is_station(&self) -> bool {
        self.feat matches Some(PlanetFeature::Station { .. })
    }

    pub open spec fn is_ore(&self) -> bool {
        self.feat == Some(PlanetFeature::Ore)
    }
}

} // verus!
