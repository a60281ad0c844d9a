//! The UDP path of a transparent proxy client: flow keys, the per-flow
//! association table, and the framing of datagrams relayed through a
//! remote proxy server.

pub mod address;
pub mod flow;
pub mod table;
pub mod relay;
