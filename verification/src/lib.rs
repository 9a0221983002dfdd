//! Terminal protocol, remote file listing and connection logic for an SSH
//! client, with machine-checked contracts.

pub mod auth;
pub mod cli;
pub mod config;
pub mod decimal;
pub mod gui;
pub mod remote_fs;
pub mod ssh_client;
pub mod text;
pub mod terminal;
pub mod transfer;
