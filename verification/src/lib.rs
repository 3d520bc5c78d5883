//! Anomaly detection for the systemd journal.

pub mod actions;
pub mod bytes;
pub mod cli;
pub mod config;
pub mod decay;
pub mod engine;
pub mod float;
pub mod hash;
pub mod histogram;
pub mod ingestion;
pub mod journal;
pub mod mask;
pub mod metrics;
pub mod pattern;
pub mod persist;
pub mod pipeline;
pub mod profile;
pub mod proto;
pub mod quiet;
pub mod rate;
pub mod ring;
pub mod server;
pub mod session;
pub mod slot;
pub mod sorting;
pub mod state;
pub mod stats;
pub mod store;
pub mod system;
pub mod tables;
pub mod template;
pub mod text;
pub mod textmap;
pub mod weights;
pub mod window;
pub mod wire;
