//! Distribution and delivery of timestamped environmental readings: a lossy
//! broadcast bus, a size- and time-bounded batcher, a compact wire envelope,
//! and the connection state machine that gates the uplink.

pub mod measurement;
pub mod indicator;
pub mod wire;
pub mod throttle;
pub mod bus;
pub mod connection;
pub mod uplink;
pub mod dns;
