//! Ships, their jobs and their goals.

use vstd::prelude::*;

verus! {

/// A ship's role.
#[derive(Clone, Copy, Debug, PartialEq, Eq, Structural)]
pub enum ShipJob {
    Trader { cargo: bool },
    Miner,
    Pirate,
}

/// What a ship is doing: the state of its state machine.
#[derive(Clone, Copy, Debug, PartialEq, Eq, Structural)]
pub enum ShipGoal {
    /// Travelling to a body.
    Visit { target: usize },
    /// Docked at a body, counting ticks.
    Wait { target: usize, progress: isize },
    /// Patrolling.
    Wander,
    /// Chasing a ship, counting ticks spent within raid range.
    Hunt { prey: usize, progress: isize },
    /// Looking for prey.
    Scan,
}

/// An agent of the simulation.
#[derive(Clone, Copy, Debug, PartialEq, Eq, Structural)]
pub struct Ship {
    pub goal: ShipGoal,
    pub job: ShipJob,
}

impl Ship {
    /// A ship with the given job, bound for body 0 until it is told otherwise.
    pub fn new(job: ShipJob) -> (ship: Ship)
        ensures
            ship == (Ship { goal: ShipGoal::Visit { target: 0 }, job }),
    {
        Ship { goal: ShipGoal::Visit { target: 0 }, job }
    }

    /// Whether the ship is a trader with cargo aboard.
    pub open spec fn carries(&self) -> bool {
        self.job == (ShipJob::Trader { cargo: true })
    }

    /// Decides `carries`.
    pub fn has_cargo(&self) -> (r: bool)
        ensures
            r == self.carries(),
    {
        match self.job {
            ShipJob::Trader { cargo } => cargo,
            _ => false,
        }
    }
}

} // verus!
