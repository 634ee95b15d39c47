//! The MCP server's protocol logic.
pub mod server;
