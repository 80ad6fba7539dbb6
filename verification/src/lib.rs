//! Line relay between connections: every line that one connection sends is
//! queued for every other registered connection.
//!
//! [`writer`] holds the per-connection handle and the commands that the router
//! consumes, [`router`] the registry and the fan-out, [`delivery`] the laws
//! of what a broadcast reaches, [`lines`] the cutting of an inbound stream
//! into lines, and [`connection`] what the two ends of one connection decide
//! and put on the wire.

pub mod connection;
pub mod delivery;
pub mod lines;
pub mod router;
pub mod writer;
