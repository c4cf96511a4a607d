pub mod error;
pub mod job;
pub mod libp2p;
pub mod policy;
pub mod server;
pub mod transport;
pub mod swarm;
