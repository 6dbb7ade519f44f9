//! A Miller-Rabin probabilistic primality tester over arbitrary-precision
//! non-negative integers.
//!
//! The crate offers a single-witness check, [`is_witness`], and a bulk tester,
//! [`is_prime`], that tries many bases in parallel and short-circuits as soon
//! as one base proves the tested integer composite.

pub mod natural;
pub mod primality;

pub use primality::{decompose, is_prime, is_witness, survives_bases};
