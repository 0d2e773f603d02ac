//! A type-safe wrapper for loading and persisting a strongly-typed
//! configuration value to and from a JSON-encoded file.
//!
//! The wrapper [`config::Config`] holds one payload value and offers
//! conversions to and from JSON text and bytes. Payload types declare their
//! JSON shape through [`config::JsonPayload`] and, for file persistence,
//! their path and formatting policy through [`config::ConfigFile`].

pub mod config;
pub mod errors;
pub mod json;
pub mod sample;
