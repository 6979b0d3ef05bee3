//! Experimentation / feature-flag decision library.
//!
//! Given a user, a project context and a set of configured experiments, the
//! library decides which treatment (control or a named variation) the user
//! receives, respecting audience targeting, traffic-size caps, frequency
//! limits and configuration versioning.  Assignments are sticky across
//! requests through a compact tracking string carried by the client.

pub mod admin;
pub mod codec;
pub mod data;
pub mod engine;
pub mod entities;
pub mod errors;
pub mod glue;
pub mod jsontext;
pub mod nums;
pub mod paths;
pub mod script;
pub mod service;
pub mod settings;
pub mod store;
pub mod trusted;
