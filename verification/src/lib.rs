//! The rules of the TyProxy tunnel: its packet format, the SOCKS5 dialogue, the tables that
//! decide where a packet goes, the host routes of TUN mode, and the configuration.
//!
//! Sockets, the TLS connection, the TUN device and the configuration file belong to the program
//! around the library.

pub mod addr;
pub mod bytes;
pub mod client;
pub mod config;
pub mod frame;
pub mod modules;
pub mod relay;
pub mod server;
pub mod text;
pub mod tls;
pub mod tunnel;
