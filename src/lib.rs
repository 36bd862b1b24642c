//! Per-peer connection state of a WireGuard tunnel: the allowed-IP table,
//! the endpoint lifecycle and the decisions around the UDP transport.
pub mod ip;
pub mod allowed_ip;
pub mod table;
pub mod endpoint;
pub mod peer;
pub mod transport;
pub mod wire;
