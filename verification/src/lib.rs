//! Kinetic Monte Carlo dynamics of a cyclic three-state model on a ring
//! lattice: a fixed symmetric neighbor topology, per-site neighbor-imbalance
//! scores (`deltas`) from which transition rates are derived, and the
//! incremental update that keeps those scores exact across transitions.

pub mod deltas;
pub mod init;
pub mod lattice;
pub mod random;
pub mod system;
