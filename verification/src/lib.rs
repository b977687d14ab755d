pub mod anonymity_metrics;
pub mod bytes;
pub mod clock;
pub mod crypto;
pub mod dataplane;
pub mod directory;
pub mod directory_api;
pub mod dpf_snapshot;
pub mod dpf_store;
pub mod fountain;
pub mod framing;
pub mod gf28;
pub mod gf28_mds;
pub mod handshake;
pub mod hybrid_route;
pub mod key_store;
pub mod handshake_protocol;
pub mod lite_config;
pub mod mix_policy;
pub mod secure_cell;
pub mod secure_udp;
pub mod session;
pub mod shard_stream;
pub mod sphinx_sim;
pub mod pow;
pub mod pow_admission;
pub mod ratchet;
pub mod relay_handler;
pub mod relay_packet;
pub mod relay_store;
pub mod route_layer;
pub mod tdm;
pub mod text;
pub mod wasm;
pub mod webrtc_turn;
pub mod time;
pub mod tokens;
pub mod traffic_analysis;
