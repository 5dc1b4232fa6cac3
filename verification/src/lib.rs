//! A verified server-side engine for the Model Context Protocol (MCP),
//! a JSON-RPC 2.0 protocol by which a client discovers and invokes the
//! tools a server exposes.
//!
//! The crate models every wire message as a plain value, serializes and
//! parses the line-oriented JSON carrier with a verified codec, and runs
//! the session (handshake, routing, tool dispatch, batching) as a pure
//! state machine.  Transport I/O and asynchronous scheduling live outside
//! the library; the library hands them fully-built messages and receives
//! parsed messages back.

pub mod codec;
pub mod json;
pub mod mcp;
pub mod mcp_codec;
pub mod protocol;
pub mod rpc;
pub mod schema;
pub mod server;
pub mod session;
pub mod tool;
pub mod type_registry;
