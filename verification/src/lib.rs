//! Launches developer commands in a container that mirrors the caller's
//! identity, tagging the image by a fingerprint of the build context.

pub mod agent;
pub mod cli;
pub mod config;
pub mod context;
pub mod exec;
pub mod fingerprint;
pub mod glob;
pub mod internal;
pub mod launch;
pub mod order;
pub mod params;
pub mod paths;
pub mod pattern;
pub mod podman_cli;
pub mod reading;
pub mod select;
pub mod text;
pub mod words;
