//! Decisions of a log shipper that follows the output of backend containers and forwards
//! each chunk as a JSON frame to a collector.
//!
//! - `discovery`: which listed containers and start events get a log reader, and the
//!   registration that starts each reader at most once.
//! - `registry`: the map from container id to reader task.
//! - `reader`: what a reader does with each read from a container's output.
//! - `wire`: the JSON frame of a message.
//! - `sink`: the forwarding sink's connect / send / reconnect state machine.
//! - `text`: prefix and equality checks on strings.
pub mod discovery;
pub mod reader;
pub mod registry;
pub mod sink;
pub mod text;
pub mod types;
pub mod wire;
