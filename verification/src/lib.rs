//! Verified core of the enterprise login integration: the managed Codex
//! configuration block (and the proof that removing it gives the
//! configuration's settings back), credential clean-up in `auth.json`, the
//! launcher error policy, session renewal, the model and identity policy
//! applied to a provisioned profile, and the protocol logic of the
//! image-generation MCP helper.
mod outside;
pub mod text;
pub mod json;
pub mod error;
pub mod profile;
pub mod managed_config;
pub mod auth;
pub mod login;
pub mod image_mcp;
pub mod session;
pub mod config_laws;
