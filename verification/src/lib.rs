//! Verified core of a Prometheus exporter for Docker containers, Raspberry Pi
//! hardware readings and host statistics.
pub mod text;
pub mod config;
pub mod counters;
pub mod node;
pub mod raspi;
pub mod clock;
pub mod metrics;
pub mod docker;
pub mod handlers;
pub mod history;
