//! The client side of the proxy protocols.

pub mod http;
pub mod http_laws;
pub mod socks5;
pub mod socks5_laws;
