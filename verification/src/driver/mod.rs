//! Running recorded programs: what is asked of the driver, one call at a time, and
//! what its answers come to.
pub mod action;
pub mod laws;
pub mod runner;
pub mod session;
pub mod table;
