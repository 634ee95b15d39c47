//! Call auditing shared by the MCP and Actions transports: configuration,
//! the classification of a tool result, what is kept of its input and
//! output, the SQL that queries the records, and the client address behind
//! proxies.
//!
//! The classification counts whether a call completed normally, not whether
//! the code it looked at passed: a search without matches succeeds; start-up,
//! argument, configuration and permission errors, crashes and timeouts fail;
//! a refusal by the security or permission policy is `rejected`.
pub mod config;
pub mod classify;
pub mod query;
pub mod headers;
pub mod detail;
pub mod record;
