//! A typed client library for a public market-data REST API.
//!
//! The library is the decoding and representation layer: it parses JSON
//! response bodies into typed domain records, builds the endpoint URLs, and
//! decides success or failure from an HTTP status and body. The transport
//! itself (performing the GET) is left to the caller.

pub mod num;
pub mod json;
pub mod text;
pub mod side;
pub mod ids;
pub mod times;
pub mod model;
pub mod decode;
pub mod urls;
pub mod client;
