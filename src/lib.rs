//! A small HTTP/1.1 server core: request parsing, path routing, response
//! encoding and the per-connection decision logic, with their contracts.

pub mod text;
pub mod text_map;
pub mod path;
pub mod config;
pub mod header;
pub mod request;
pub mod response;
pub mod router;
pub mod endpoints;
pub mod connection;
