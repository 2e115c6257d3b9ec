//! nbac: an on-demand, idle-shutdown Nix builder on Apple's `container`
//! runtime. This crate holds the decisions the CLI makes: configuration
//! defaults and derived paths, the argument vectors handed to `container`,
//! `ssh` and `nc`, the classification and recovery of `container` failures,
//! machine lifecycle plans, image generation hashing, key injection, and the
//! status probes' verdicts.

pub mod config;
pub mod container;
pub mod driver;
pub mod generation;
pub mod inject;
pub mod keys;
pub mod machine;
pub mod session;
pub mod status;
pub mod text;
pub mod transport;
