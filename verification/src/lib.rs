//! Client library for a local HTTP proxy service: a cookie-authenticated
//! HTTP agent, a login handshake, typed resource lookups, and the JSON
//! wire codec they share.

pub mod agent;
pub mod auth;
pub mod error;
pub mod identities;
pub mod json;
pub mod projects;
pub mod seeds;
pub mod session;
pub mod transport;
