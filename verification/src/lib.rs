//! Symbolic port allocation for local development projects.

pub mod display;
pub mod document;
pub mod error;
pub mod laws;
pub mod listing;
pub mod model;
pub mod name_map;
pub mod names;
pub mod port;
pub mod ports;
pub mod registry;
pub mod sockets;
pub mod store;
pub mod table;
pub mod text;
