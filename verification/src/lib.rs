//! Verified core of the allcast screen-replication tools.
pub mod config;
pub mod control;
pub mod detiler;
pub mod monitor;
pub mod pipeline;
pub mod platform;
pub mod procfs;
pub mod settings;
pub mod stats;
pub mod text;
