//! hew: formats structured log lines according to a list of sections.
pub mod laws;
pub mod models;
pub mod service;
pub mod text;
