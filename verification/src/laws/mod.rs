//! What the library's operations are for, said of their inputs and results.
pub mod ansi;
pub mod cache;
pub mod capture;
pub mod collect;
pub mod config;
pub mod container;
pub mod cri;
pub mod delivery;
pub mod docker;
pub mod files;
pub mod host;
pub mod kubernetes;
pub mod reports;
pub mod runtimes;
pub mod sections;
pub mod service;
pub mod storage;
pub mod text;
pub mod views;
