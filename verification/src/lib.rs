//! Transparent retry of HTTP/2 requests that the server rejected before it
//! processed them.
//!
//! A server that shuts a connection down, or refuses a stream, leaves requests
//! behind that it never looked at. Those can be sent again on a fresh
//! connection whatever they ask for. This crate decides which failures are of
//! that kind ([`rejection`]), how often a request is sent again ([`retry`]),
//! and keeps the request body so that it can be read again from its first
//! frame ([`body`]).
//!
//! [`replay`] states and proves what the attempts at a request see of its body,
//! and [`call`] what they send over the whole course of the request. What comes
//! from other crates is gathered in [`boundary`].
pub mod body;
pub mod boundary;
pub mod call;
pub mod rejection;
pub mod replay;
pub mod retry;
