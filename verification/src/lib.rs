//! The verified core of the EdgePacer node agent.
pub mod agent;
pub mod ansi;
pub mod auth_session;
pub mod batch_tracker;
pub mod bootstrap;
pub mod buffer;
pub mod bytes;
pub mod census_entries;
pub mod checkpoint;
pub mod common;
pub mod config;
pub mod container_reader;
pub mod counters;
pub mod cri;
pub mod delivery;
pub mod digest;
pub mod discovery;
pub mod ebpf;
pub mod json;
pub mod laws;
pub mod order;
pub mod outline;
pub mod release_manifest;
pub mod seqs;
pub mod strmap;
pub mod text;
pub mod version;
