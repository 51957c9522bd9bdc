//! An artificial-life simulation: creatures driven by small neural networks
//! roam a toroidal terrain of regrowing food, eat, shrink, reproduce with
//! mutated brains and die when too small.
//!
//! All simulated quantities are fixed-point integers (see [`fixed`]), so the
//! whole engine is checked by Verus.

pub mod fixed;
pub mod random;
pub mod brain;
pub mod terrain;
pub mod creature;
pub mod world;
