//! Tunnels that expose the local MCP endpoint.
pub mod openai;
