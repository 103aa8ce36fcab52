//! A relay-server catalog for a VPN client.
//!
//! The catalog is a tree of countries, cities and relays, each relay carrying
//! the protocol-specific data (OpenVPN, WireGuard, Shadowsocks) needed to dial
//! it. The crate fixes the wire format of the catalog — a JSON payload whose
//! encoder and decoder are verified inverses — and the conversions from a
//! relay's protocol data to a connectable endpoint.

pub mod catalog;
pub mod codec;
pub mod laws;
pub mod net;
pub mod numerals;
pub mod wire;
