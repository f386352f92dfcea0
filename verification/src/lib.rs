//! A deterministic, seeded, single-threaded simulator of a peer-to-peer
//! overlay: a tick executor, an in-memory network fabric with delayed and
//! possibly failing dials, and the peer-list manager and node state machine
//! that decide whom to dial and when to gossip.
//!
//! All time is simulated time in milliseconds, carried as `u64`.

pub mod address;
pub mod b58;
pub mod network;
pub mod node;
pub mod node_config;
pub mod node_events;
pub mod peer_list_manager;
pub mod primitives;
pub mod rng;
pub mod sim_builder;
pub mod simulation_executor;
pub mod storage;
pub mod timer;
pub mod types;
