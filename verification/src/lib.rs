//! Core components of the MixTor pluggable transport.
pub mod bytes;
pub mod cells;
pub mod clock;
pub mod clumping;
pub mod composer;
pub mod composition;
pub mod correlation_attack;
pub mod crypto;
pub mod dp_shaper;
pub mod flow;
pub mod frames;
pub mod handshake;
pub mod identity;
pub mod lab_log;
pub mod managed;
pub mod mux;
pub mod optimal_padding;
pub mod primitives;
pub mod privacy_accountant;
pub mod protocol;
pub mod rng;
pub mod seeds;
pub mod self_test;
pub mod session_bounder;
pub mod shaped_session;
pub mod simulation;
pub mod socks;
pub mod sorting;
pub mod spectral;
pub mod text;
pub mod timing;
pub mod timing_correlator;
pub mod transport;
