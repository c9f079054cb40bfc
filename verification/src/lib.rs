//! Verified core of an acquisition firewall for coding agents.

pub mod command;
pub mod digest;
pub mod error;
pub mod identity;
pub mod lockfile;
pub mod policy;
pub mod provenance;
pub mod report;
pub mod resolver;
pub mod sandbox;
pub mod sort;

pub mod text;
pub mod workflow;
