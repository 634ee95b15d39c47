//! Verified core of the coding-tools workspace server: HTTP access-log
//! formatting and aggregation, audit configuration and classification, the
//! goal monitor state machine, command-line splitting and tunnel checks.
pub mod text;
pub mod order;
pub mod harness;
pub mod monitor;
pub mod tools;
pub mod tunnel;
pub mod access_log;
pub mod audit;
pub mod mcp;
pub mod commands;
