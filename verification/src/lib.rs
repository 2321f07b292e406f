//! The configuration, the routing and the stream framing of a proxy that stands
//! between its clients and OpenAI-compatible upstreams.
//!
//! Everything here computes: what is read from files, from the environment or
//! from the network comes in as plain values, and what is sent goes out as plain
//! values. The few calls into other crates stand in [`boundary`].
pub mod attempts;
pub mod boundary;
pub mod catalog;
pub mod config;
pub mod endpoint;
pub mod headers;
pub mod identity;
pub mod listing;
pub mod laws;
pub mod lists;
pub mod metrics;
pub mod name_map;
pub mod number;
pub mod order;
pub mod overrides;
pub mod policy;
pub mod progress;
pub mod routing;
pub mod sources;
pub mod sse;
pub mod startup;
pub mod status;
pub mod text;
