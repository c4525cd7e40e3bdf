//! Verified core of a tensor-container range-download and dedup tool.
//!
//! The library parses and serializes the container's binary header, plans
//! which byte ranges to fetch, decides what is already cached by content
//! hash, and reassembles a byte-exact container from cached blobs.

pub mod bridge;
pub mod cache;
pub mod compare;
pub mod errors;
pub mod export;
pub mod fetch;
pub mod header;
pub mod layers;
pub mod manifest;
pub mod model;
pub mod parse;
pub mod roundtrip;
pub mod ser;

