//! Verified core of an MCP server that loads Inochi2D puppets, keeps the
//! parameter values set by its client and renders frames to PNG.
pub mod frame;
pub mod params;
pub mod session;
pub mod output;
