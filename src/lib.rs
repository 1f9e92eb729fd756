//! The cryptographic core of a privacy-preserving counter aggregation
//! protocol.
//!
//! Clients increment a fixed set of counters; a committee of tally
//! reporters learns the sum of each counter over all clients and nothing
//! about any one client. Each client blinds its counters with masks derived
//! from seeds encrypted to the tally reporters, and splits them with
//! Shamir's K-of-N secret sharing over a 62-bit prime field; any K tally
//! reporters can recover the totals.
//!
//! Every operation that needs randomness takes its random values as
//! arguments, so that the caller chooses the (secure) source.
pub mod client;
pub mod data;
pub mod encrypt;
pub mod math;
mod primitives;
pub mod server;
pub mod shamir;

pub use math::FE;
pub use math::PRIME_ORDER;
