//! A small proxy library that accepts security events, validates and
//! normalizes them into a fixed downstream schema, and prepares them for
//! delivery to a message queue.

pub mod capability;
pub mod json;
pub mod queue;
pub mod server;
