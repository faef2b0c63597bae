//! The decisions of a proxy between Anthropic-style clients and OpenAI-style upstreams:
//! which upstream serves a request, and how its stream becomes the client's.

pub mod config;
pub mod content;
pub mod failover;
pub mod framing;
pub mod model;
pub mod pieces;
pub mod promises;
pub mod protocol;
pub mod proxy;
pub mod relay;
pub mod sse;
pub mod stream;
pub mod text;
pub mod upstream;
