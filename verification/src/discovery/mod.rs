//! What a scan of the host finds, and the identities of what it found.
pub mod cache;
pub mod census;
pub mod container;
pub mod cri;
pub mod crictl;
pub mod docker;
pub mod event_log;
pub mod files;
pub mod kubernetes;
pub mod packages;
pub mod ports;
pub mod processes;
pub mod systemd;
pub mod windows_services;
