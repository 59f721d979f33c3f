//! gillnet: the decisions of an HTTP gateway, verified.
//!
//! The gateway matches a request path to a route, authenticates the caller,
//! lets WebAssembly filters edit or answer the request, and forwards what is
//! left to an upstream. Everything in this crate works on plain values; sockets,
//! files and the event loop belong to the binary that uses it.

pub mod text;
pub mod sorting;
pub mod strmap;
pub mod decimal;
pub mod json;
pub mod tree;
pub mod clock;
pub mod signed;
pub mod yaml;
pub mod config;
pub mod components;
pub mod headers;
pub mod digest;
pub mod provider;
pub mod testing;
pub mod auth;
pub mod cookies;
pub mod plugins;
pub mod header_policy;
pub mod registry;
pub mod proxy;
pub mod websocket;
pub mod filters;
pub mod api;
pub mod laws;
