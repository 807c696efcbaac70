//! Verified core of the Herdr Annotate runtime.

pub mod text;
pub mod width;
pub mod layout;
pub mod json;
pub mod types;
pub mod format;
pub mod agent_delivery;
pub mod store;
pub mod record_shapes;
pub mod archive_workflow;
pub mod archive_commands;
pub mod manager_copy;
pub mod cli;
pub mod paths;
pub mod clipboard;
pub mod herdr;
