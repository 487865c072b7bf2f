//! Client-side core of a small document-database command-line client:
//! the query-language compiler, the wire-protocol value model, message
//! framing over a byte stream, the authentication handshake, and
//! status-driven response rendering.

pub mod auth;
pub mod framing;
pub mod laws;
pub mod parse;
pub mod query;
pub mod render;
pub mod roundtrip;
pub mod session;
pub mod value;
pub mod wire;

pub use value::Value;
