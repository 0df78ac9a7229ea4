//! A verified simulation of an evolving population of economic agents on a
//! bounded two-dimensional plane.
//!
//! Real-valued quantities (wealth, education, positions, rates) are modelled
//! as fixed-point integers in micro-units (see [`fixed::SCALE`]), so that the
//! engine's arithmetic is exact and free of overflow by proof.

use vstd::prelude::*;

pub mod agent;
pub mod codec;
pub mod config;
pub mod curves;
pub mod environment;
pub mod fixed;
pub mod metrics;
pub mod render;
pub mod rng;

verus! {

} // verus!
