//! A verified configuration/secrets store: named projects, each holding
//! named environments of key/value variables, persisted as a single JSON
//! document.

pub mod cli;
pub mod codec;
pub mod config;
pub mod error;
pub mod export;
pub mod laws;
pub mod models;
pub mod store;
