//! Typed client core for a multi-chain blockchain-data query service:
//! chain scoping, request encoding, resource routing, request validation,
//! HTTP endpoint configuration and stream multiplexing.
pub mod chain;
pub mod client;
pub mod codec;
pub mod hash;
pub mod http;
pub mod mira;
pub mod order;
pub mod query;
pub mod resource;
pub mod stream;
