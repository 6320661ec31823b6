//! A small library for caching and presenting species descriptions.
//!
//! The crate has two parts: a durable key-value cache of raw response
//! payloads, keyed by numeric ID and serialized as a JSON object in a single
//! backing file, and an extractor that parses a raw payload into a document,
//! filters its description entries by language tag, and formats one chosen
//! entry for display.

pub mod cache;
pub mod describe;
pub mod extract;
pub mod json;
pub mod text;
