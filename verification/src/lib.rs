//! Core of a mesh overlay VPN: nodes hold a virtual IPv4 interface and
//! exchange packets with peers either directly over UDP or relayed through a
//! coordinating server, which assigns virtual addresses within named groups.
//!
//! This crate holds the data plane and control logic: the obfuscating stream
//! ciphers, the wire codec and framing, the longest-prefix routing table, the
//! server-side group book-keeping, and the heartbeat-driven liveness state
//! machines. Network and TUN I/O live outside; they hand values in and take
//! values back.

pub mod cipher;
pub mod cli;
pub mod cloning;
pub mod codec;
pub mod config;
pub mod control;
pub mod framing;
pub mod liveness;
pub mod net;
pub mod protocol;
pub mod protocol_io;
pub mod routing_table;
pub mod server_core;
pub mod steering;
pub mod wire;

pub use net::{IpAddress, Ipv4Cidr, ProtocolMode, SockAddr, VirtualAddr, SERVER_VIRTUAL_ADDR};
