//! A flocking simulation on fixed-point integers.
//!
//! Every agent has a position and a heading. One step reads the states of all
//! agents, steers each of them by separation, alignment and cohesion with the
//! agents near it, turns it back from the edges of the world, limits its speed
//! and moves it. All quantities are integers in units of `1 / ONE`, so a step
//! gives the same result on every machine.

pub mod arith;
pub mod vector;
pub mod config;
pub mod agent;
pub mod speed;
pub mod boundary;
pub mod neighbors;
pub mod steering;
pub mod step;
pub mod init;
pub mod laws;
