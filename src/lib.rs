//! Simulated annealing over integer fitness values and temperatures.
//!
//! Lower fitness is better. Acceptance scores and random draws are
//! fixed-point probabilities, with `PROBABILITY_ONE` standing for 1.

pub mod acceptance;
pub mod cooling_schedules;
pub mod engine;

pub use acceptance::{never_accept, PROBABILITY_ONE};
pub use cooling_schedules::{Geometric, Linear};
pub use engine::{
    accepts, annealing_with_policy, first_accepted, simulated_annealing, Best, Fitness, Neighbours,
    Temperature, TerminationPolicy,
};
