//! A small mind-map editor server library.
//!
//! The library holds the verified core of the server: the in-memory map
//! registry with its persistence plan, the string-level template renderer,
//! and the configuration resolution rules. The surrounding process (HTTP
//! routing, disk and signal handling) lives outside and talks to this
//! library through plain values.

pub mod config;
pub mod error;
pub mod ids;
pub mod laws;
pub mod numeric;
pub mod registry;
pub mod render;
pub mod text;

pub use config::ParsedParas;
pub use error::MyError;
pub use registry::MindMap;
