//! Settings of the rules: probabilities as ratios, costs, counts and counter spans.

use vstd::prelude::*;

verus! {

/// A probability, given as a ratio of two integers.
#[derive(Clone, Copy, Debug, PartialEq, Eq, Structural)]
pub struct Ratio {
    pub numerator: u32,
    pub denominator: u32,
}

impl Ratio {
    /// A ratio is a probability when it lies between zero and one.
    pub open spec fn wf(&self) -> bool {
        self.numerator <= self.denominator && self.denominator != 0
    }

    /// Decides `wf`.
    pub fn is_wf(&self) -> (r: bool)
        ensures
            r == self.wf(),
    {
        self.numerator <= self.denominator && self.denominator != 0
    }
}

/// The half-open range of values `start..end` that a counter may start from.
#[derive(Clone, Copy, Debug, PartialEq, Eq, Structural)]
pub struct Span {
    pub start: isize,
    pub end: isize,
}

/// The settings that the simulation's rules read.
#[derive(Clone, Copy, Debug, PartialEq, Eq, Structural)]
pub struct SimConfig {
    /// Probability that a planet under construction gets one more moon.
    pub pl_moon_prob: Ratio,
    /// Probability that a featureless body is given a random feature.
    pub pl_feat_prob: Ratio,
    /// Stock above which a station builds a trader, and what the trader costs.
    pub ship_cost: usize,
    pub miner_count: usize,
    /// Ticks a miner's wait counter must reach before the miner leaves.
    pub harvest_duration: usize,
    /// Where a wait counter starts.
    pub harvest_variance: Span,
    pub pirate_count: usize,
    /// Ticks within raid range that a raid's counter must exceed.
    pub raid_duration: usize,
    /// Where a raid counter starts.
    pub raid_variance: Span,
    /// Probability that a completed raid destroys the prey.
    pub death_prob: Ratio,
}

impl SimConfig {
    /// The probabilities are probabilities, the counters have a start to draw,
    /// start no later than where they end, and never leave `isize`.
    pub open spec fn wf(&self) -> bool {
        &&& self.pl_moon_prob.wf()
        &&& self.pl_feat_prob.wf()
        &&& self.death_prob.wf()
        &&& self.harvest_duration < isize::MAX
        &&& self.harvest_variance.start < self.harvest_variance.end
        &&& self.harvest_variance.end <= self.harvest_duration + 1
        &&& self.raid_duration < isize::MAX - 1
        &&& self.raid_variance.start < self.raid_variance.end
        &&& self.raid_variance.end <= self.raid_duration + 2
    }

    /// Decides `wf`.
    pub fn is_wf(&self) -> (r: bool)
        ensures
            r == self.wf(),
    {
        self.pl_moon_prob.is_wf() && self.pl_feat_prob.is_wf() && self.death_prob.is_wf()
            && self.harvest_duration < isize::MAX as usize
            && self.harvest_variance.start < self.harvest_variance.end
            && self.harvest_variance.end <= self.harvest_duration as isize + 1
            && self.raid_duration < isize::MAX as usize - 1
            && self.raid_variance.start < self.raid_variance.end
            && self.raid_variance.end <= self.raid_duration as isize + 2
    }
}

impl Default for SimConfig {
    fn default() -> (config: SimConfig)
        ensures
            config.wf(),
            config.pl_moon_prob == (Ratio { numerator: 1, denominator: 2 }),
            config.pl_feat_prob == (Ratio { numerator: 4, denominator: 5 }),
            config.ship_cost == 4,
            config.miner_count == 16,
            config.harvest_duration == 100,
            config.harvest_variance == (Span { start: -20isize, end: 20isize }),
            config.pirate_count == 8,
            config.raid_duration == 40,
            config.raid_variance == (Span { start: -20isize, end: 20isize }),
            config.death_prob == (Ratio { numerator: 2, denominator: 5 }),
    {
        SimConfig {
            pl_moon_prob: Ratio { numerator: 1, denominator: 2 },
            pl_feat_prob: Ratio { numerator: 4, denominator: 5 },
            ship_cost: 4,
            miner_count: 16,
            harvest_duration: 100,
            harvest_variance: Span { start: -20, end: 20 },
            pirate_count: 8,
            raid_duration: 40,
            raid_variance: Span { start: -20, end: 20 },
            death_prob: Ratio { numerator: 2, denominator: 5 },
        }
    }
}

} // verus!
