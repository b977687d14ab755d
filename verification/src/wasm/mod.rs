//! Browser-side transports and schedulers.
pub mod equihash;
pub mod hydra_tcp;
pub mod mobile_power;
pub mod stego_ws;
pub mod transport;
pub mod websocket_frame;
