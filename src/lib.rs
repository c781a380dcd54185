//! A session broker: connections join named channels under an identity,
//! a reused identity evicts its earlier holder, and broadcasts fan out to
//! every current member of a channel.
pub mod channel;
pub mod registry;
pub mod protocol;
pub mod params;
pub mod session;
