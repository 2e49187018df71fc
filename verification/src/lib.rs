//! Overlay-network node library: distributed directory, onion circuits,
//! HTTP forward-proxy parsing, and dashboard endpoints, with verified
//! contracts on every function.

pub mod browser;
pub mod chat;
pub mod client;
pub mod content;
pub mod digest;
pub mod encrypt;
mod entropy;
pub mod fdom;
pub mod identity;
pub mod onion;
pub mod peers;
pub mod protocol;
pub mod proxy;
pub mod resolver;
pub mod routing;
pub mod sites;
pub mod textutil;
pub mod vpn;
pub mod web;

pub use digest::hash_content;
