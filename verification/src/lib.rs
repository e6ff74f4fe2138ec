//! Regret minimization for repeated simultaneous-move games, on fixed-point
//! numbers.
//!
//! Every real quantity (a probability, a reward, a regret, a discount
//! exponent) is an `i128` counting units of `2^-32`; see [`fixed`] for the
//! arithmetic and [`power`] for roots and powers.
//!
//! [`regret_minimizer`] holds the contract of a minimizer and the shared
//! primitives, [`accumulate`] the steps of the update rules, [`discount`]
//! the discount factors, [`sampler`] the weighted sampler. The six
//! minimizers are [`cfr_plus`], [`dcfr`], [`dcfr_plus`], [`linear_cfr`],
//! [`pcfr_plus`] and [`pdcfr_plus`]; [`regret_matcher`] is the plain
//! matcher over cumulative rewards, and [`rps`] plays two minimizers
//! against each other.

pub mod accumulate;
pub mod cfr_plus;
pub mod dcfr;
pub mod dcfr_plus;
pub mod discount;
pub mod errors;
pub mod fixed;
pub mod linear_cfr;
pub mod pcfr_plus;
pub mod pdcfr_plus;
pub mod power;
pub mod regret_matcher;
pub mod regret_minimizer;
pub mod rps;
pub mod sampler;

pub use crate::regret_matcher::RegretMatcher;
pub use crate::regret_minimizer::RegretMinimizer;
