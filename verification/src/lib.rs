//! Peak overlap of periodic on/off gates with randomized phases.
//!
//! A population of gates, each on for a part of its period and off for the
//! rest, is given fresh random phases again and again. Each time the largest
//! number of gates that are on together is measured over a window of sampled
//! instants and recorded in a histogram.
//!
//! Time is counted in ticks of a fixed length, [`gate::TICKS_PER_SECOND`] to the
//! second, so that every instant the simulation touches is an integer.

pub mod accumulator;
pub mod coherency;
pub mod evaluator;
pub mod gate;
pub mod population;
pub mod random;
pub mod ratio;
pub mod trial;
