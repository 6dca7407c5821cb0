//! Verified building blocks of the Codex command-line tools for Android
//! Termux: path mapping for shared attachments, update commands and update
//! notices, and the environment handed to MCP servers.

pub mod paths;
pub mod attachment_paths;
pub mod update_action;
pub mod updates;
pub mod agents_md;
pub mod byte_map;
pub mod mcp_env;
pub mod headers;
