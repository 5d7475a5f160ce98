//! Capturing what workloads say and do, in the kernel.
pub mod capture;
pub mod events;
pub mod listeners;
pub mod policy;
