//! Verified core of the wirepf NAT daemon and its command-line client.

pub mod addr;
pub mod cli;
pub mod client;
pub mod api;
pub mod config;
pub mod dto;
pub mod invariants;
pub mod output;
pub mod packet;
pub mod settings;
pub mod tables;
pub mod text;
