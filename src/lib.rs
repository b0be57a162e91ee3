//! The resource-loading core of a browser's HTTP stack: scheme policy,
//! HSTS upgrade, cookie-jar integration, default request headers, redirect
//! handling and content decoding, over a pluggable transport.

pub mod headers;
pub mod url;
pub mod hsts;
pub mod cookies;
pub mod decoder;
pub mod loader;
