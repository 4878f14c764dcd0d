//! The ways in which the client takes traffic in.

pub mod socks5;
pub mod tun;
