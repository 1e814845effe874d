//! A graph-execution library: state graphs of named nodes, channel-based state
//! merging, superstep execution with routing commands, checkpointing, and
//! prebuilt tool, validation and agent nodes.
pub mod text;
pub mod json;
pub mod error;
pub mod channel;
pub mod runtime;
pub mod command_policy;
pub mod state;
pub mod graph;
pub mod executor;
pub mod event_json;
pub mod checkpoint;
pub mod bridge;
pub mod tool_node;
pub mod validation;
pub mod react;
pub mod react_template;
pub mod cli;
