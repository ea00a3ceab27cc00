//! Passive LAN device discovery, fingerprinting and anomaly detection.
pub mod text;
pub mod common;
pub mod netfmt;
pub mod decode;
pub mod fingerprint;
pub mod alert;
pub mod config;
pub mod registry;
pub mod anomaly;
pub mod capture;
pub mod features;
pub mod datapath;
pub mod pipeline;
pub mod tui;
pub mod report;
