//! Data-plane types: Ethernet frames and per-port state.

pub mod frame;
pub mod interface;
