//! A stochastic simulator for well-mixed chemical reaction networks,
//! implementing Gillespie's direct method.
//!
//! The engine holds integer species counts and a list of reactions, each
//! a propensity ([`gillespie::Rate`]) paired with a stoichiometric update
//! ([`gillespie::Jump`]).  It repeatedly samples an exponential waiting
//! time and a reaction index, applies the chosen update, and stops at a
//! caller-supplied horizon.  Real numbers are carried as IEEE-754 binary64
//! bit patterns (`u64`) and computed through a software IEEE-754
//! implementation, so every simulation is a deterministic function of the
//! seed and the reaction list.

pub mod expr;
pub mod facade;
pub mod ieee;
pub mod gillespie;
pub mod numeric;
pub mod rng;
