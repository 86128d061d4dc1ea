//! Verified core of a command-line and terminal client for the LocalAI HTTP API.

pub mod text;
pub mod order;
pub mod json;
pub mod report;
pub mod discover;
pub mod table;
pub mod input;
pub mod actions;
pub mod browser;
pub mod client;
pub mod cli;
pub mod panels;
pub mod laws;
