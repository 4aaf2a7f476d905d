//! The constants that shape a flock, and the world's extent.

use crate::arith::LIMIT;
use vstd::prelude::*;

verus! {

/// The largest magnitude of a blending factor.
pub const FACTOR_LIMIT: i64 = 1_048_576;

/// The largest speed that a configuration can allow.
pub const SPEED_LIMIT: i64 = 2_147_483_648;

/// How far `max_speed` must lie above `min_speed`: rescaling a heading to a
/// speed rounds each coordinate, and misses the speed by less than this.
pub const SPEED_SLACK: i64 = 3;

/// The constants of the simulation, in fixed-point units.
#[derive(Clone, Copy, Debug, PartialEq, Eq, Structural)]
pub struct Config {
    /// Agents closer than this are neighbours.
    pub radius: i64,
    /// The weight of the push away from close neighbours.
    pub separation_factor: i64,
    /// The weight of the neighbours' mean heading.
    pub alignment_factor: i64,
    /// The weight of the pull toward the neighbours' mean position.
    pub cohesion_factor: i64,
    /// What is added to a heading's coordinate near an edge.
    pub turn_impulse: i64,
    /// How near an edge an agent is turned back.
    pub margin: i64,
    /// Neighbours closer than this push an agent away.
    pub separation_threshold: i64,
    /// The largest speed after a step's limiting.
    pub max_speed: i64,
    /// The smallest speed after a step's limiting.
    pub min_speed: i64,
    /// How far a unit of heading moves an agent in a unit of time.
    pub spatial_scale: i64,
    /// How many agents a flock starts with.
    pub agent_count: usize,
}

impl Config {
    /// The factors, the impulse, the speeds and the scale lie in the ranges
    /// that the arithmetic of a step has room for.
    pub open spec fn wf(&self) -> bool {
        &&& -FACTOR_LIMIT <= self.separation_factor <= FACTOR_LIMIT
        &&& -FACTOR_LIMIT <= self.alignment_factor <= FACTOR_LIMIT
        &&& -FACTOR_LIMIT <= self.cohesion_factor <= FACTOR_LIMIT
        &&& -LIMIT <= self.turn_impulse <= LIMIT
        &&& 0 <= self.min_speed
        &&& self.min_speed + SPEED_SLACK <= self.max_speed <= SPEED_LIMIT
        &&& 0 <= self.spatial_scale <= LIMIT
    }

    /// Whether the configuration is well formed.
    pub fn is_wf(&self) -> (b: bool)
        ensures
            b == self.wf(),
    {
        -FACTOR_LIMIT <= self.separation_factor && self.separation_factor <= FACTOR_LIMIT
            && -FACTOR_LIMIT <= self.alignment_factor && self.alignment_factor <= FACTOR_LIMIT
            && -FACTOR_LIMIT <= self.cohesion_factor && self.cohesion_factor <= FACTOR_LIMIT
            && -LIMIT <= self.turn_impulse && self.turn_impulse <= LIMIT && 0 <= self.min_speed
            && self.min_speed <= SPEED_LIMIT && self.min_speed + SPEED_SLACK <= self.max_speed
            && self.max_speed <= SPEED_LIMIT && 0 <= self.spatial_scale && self.spatial_scale
            <= LIMIT
    }

    /// The canonical flock: radius 60, separation 0.1 below distance 10,
    /// alignment 0.05, cohesion 0.0008, impulse 0.1 within 300 of an edge,
    /// speeds from 1 to 3, scale 60, and 1500 agents.
    pub open spec fn canonical() -> Config {
        Config {
            radius: 60_000_000,
            separation_factor: 100_000,
            alignment_factor: 50_000,
            cohesion_factor: 800,
            turn_impulse: 100_000,
            margin: 300_000_000,
            separation_threshold: 10_000_000,
            max_speed: 3_000_000,
            min_speed: 1_000_000,
            spatial_scale: 60_000_000,
            agent_count: 1500,
        }
    }

    /// The canonical flock.
    pub fn standard() -> (c: Config)
        ensures
            c == Config::canonical(),
            c.wf(),
    {
        Config {
            radius: 60_000_000,
            separation_factor: 100_000,
            alignment_factor: 50_000,
            cohesion_factor: 800,
            turn_impulse: 100_000,
            margin: 300_000_000,
            separation_threshold: 10_000_000,
            max_speed: 3_000_000,
            min_speed: 1_000_000,
            spatial_scale: 60_000_000,
            agent_count: 1500,
        }
    }
}

impl Default for Config {
    fn default() -> (c: Config)
        ensures
            c == Config::canonical(),
            c.wf(),
    {
        Config::standard()
    }
}

/// The extent of the world: agents are kept near
/// `[-width / 2, width / 2] x [-height / 2, height / 2]`.
#[derive(Clone, Copy, Debug, PartialEq, Eq, Structural)]
pub struct Bounds {
    pub width: i64,
    pub height: i64,
}

} // verus!
