//! A minimal wallet transfer client for a ledger whose native coin is
//! divided into 10^9 smallest units.
//!
//! The library holds the client's own logic, verified: turning a decimal
//! amount into smallest units and back, parsing a recipient address, and the
//! transfer workflow as a state machine whose actions the caller performs
//! against the network.

pub mod address;
pub mod amount;
pub mod keys;
pub mod workflow;
