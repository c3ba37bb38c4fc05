//! An in-memory JSON cache addressed by dotted paths, and the line protocol that
//! serves it: `GET <path>`, `SET <path> <json>` and `REMOVE <path>`.

pub mod command;
pub mod error;
pub mod fabric;
pub mod json;
pub mod laws;
pub mod request;
pub mod text;
pub mod tree;

pub use command::Command;
pub use error::Error;
pub use fabric::Fabric;
pub use json::Json;
