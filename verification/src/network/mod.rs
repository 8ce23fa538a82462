//! What comes over the network and how the way to a server is kept up.

pub mod client;
pub mod laws;
pub mod protocol;
pub mod tunnel;
