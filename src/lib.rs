//! Vanity key search: generate keypairs until the human-readable name derived
//! from a key's address matches a requested pattern.
pub mod key;
pub mod network;
pub mod pattern;
pub mod search;
pub mod words;
