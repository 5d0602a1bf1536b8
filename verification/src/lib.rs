//! Verified core of a command-line messenger: layered settings resolution,
//! payload arbitration, the three-step upload protocol, and channel search.
//!
//! The surrounding program parses arguments, reads files and standard
//! input, and performs the network calls; everything it decides with is
//! here, under contract.

pub mod cli;
pub mod config;
pub mod errors;
pub mod output;
pub mod send;
pub mod slack;
pub mod text;
pub mod token;
