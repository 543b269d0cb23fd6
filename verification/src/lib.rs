//! Reconstruction of task identities for a hardware-traced real-time
//! scheduler: recovering task maps from source text, resolving decoded
//! trace packets into named task events, and persisting or streaming
//! the result.

pub mod assoc;
pub mod json;
pub mod parse;
pub mod recovery;
pub mod sinks;
pub mod sources;
pub mod text;
