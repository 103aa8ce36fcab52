//! Plain value types for addresses, endpoints and proxy settings.
//!
//! These are the leaf types the catalog's conversions produce: IP addresses
//! held as their numeric components, socket addresses, and the endpoint and
//! proxy-settings shapes a connection layer consumes.

use vstd::prelude::*;

verus! {

/// Transport protocol over which a tunnel or proxy is reached.
#[derive(Clone, Copy, Debug, PartialEq, Eq, Hash, Structural)]
pub enum TransportProtocol {
    Tcp,
    Udp,
}

/// An IPv4 address as four octets, most significant first.
#[derive(Clone, Copy, Debug, PartialEq, Eq, Hash, Structural)]
pub struct Ipv4Address {
    pub octet0: u8,
    pub octet1: u8,
    pub octet2: u8,
    pub octet3: u8,
}

impl Ipv4Address {
    pub fn new(octet0: u8, octet1: u8, octet2: u8, octet3: u8) -> (r: Ipv4Address)
        ensures
            r == (Ipv4Address { octet0, octet1, octet2, octet3 }),
    {
        Ipv4Address { octet0, octet1, octet2, octet3 }
    }
}

/// An IPv6 address as eight 16-bit groups, most significant first.
#[derive(Clone, Copy, Debug, PartialEq, Eq, Hash, Structural)]
pub struct Ipv6Address {
    pub group0: u16,
    pub group1: u16,
    pub group2: u16,
    pub group3: u16,
    pub group4: u16,
    pub group5: u16,
    pub group6: u16,
    pub group7: u16,
}

/// Either kind of IP address.
#[derive(Clone, Copy, Debug, PartialEq, Eq, Hash, Structural)]
pub enum IpAddress {
    V4(Ipv4Address),
    V6(Ipv6Address),
}

/// An IP address paired with a port.
#[derive(Clone, Copy, Debug, PartialEq, Eq, Hash, Structural)]
pub struct SocketAddress {
    pub ip: IpAddress,
    pub port: u16,
}

/// A connectable endpoint: a socket address plus the transport protocol.
#[derive(Clone, Copy, Debug, PartialEq, Eq, Hash, Structural)]
pub struct Endpoint {
    pub address: SocketAddress,
    pub protocol: TransportProtocol,
}

impl Endpoint {
    pub fn new(host: IpAddress, port: u16, protocol: TransportProtocol) -> (r: Endpoint)
        ensures
            r == (Endpoint { address: SocketAddress { ip: host, port }, protocol }),
    {
        Endpoint { address: SocketAddress { ip: host, port }, protocol }
    }
}

/// An endpoint tagged with the protocol family it belongs to.
#[derive(Clone, Copy, Debug, PartialEq, Eq, Hash, Structural)]
pub enum MullvadEndpoint {
    OpenVpn(Endpoint),
}

/// Parameters for reaching a relay through a Shadowsocks proxy.
#[derive(Clone, Debug, PartialEq, Eq, Hash)]
pub struct ShadowsocksProxySettings {
    pub peer: SocketAddress,
    pub password: String,
    pub cipher: String,
}

/// Proxy configurations a bridge can produce.
#[derive(Clone, Debug, PartialEq, Eq, Hash)]
pub enum ProxySettings {
    Shadowsocks(ShadowsocksProxySettings),
}

/// The mathematical value of a [`ShadowsocksProxySettings`].
pub struct ShadowsocksProxySettingsView {
    pub peer: SocketAddress,
    pub password: Seq<char>,
    pub cipher: Seq<char>,
}

/// The mathematical value of a [`ProxySettings`].
pub enum ProxySettingsView {
    Shadowsocks(ShadowsocksProxySettingsView),
}

impl DeepView for ShadowsocksProxySettings {
    type V = ShadowsocksProxySettingsView;

    open spec fn deep_view(&self) -> ShadowsocksProxySettingsView {
        ShadowsocksProxySettingsView {
            peer: self.peer,
            password: self.password@,
            cipher: self.cipher@,
        }
    }
}

impl DeepView for ProxySettings {
    type V = ProxySettingsView;

    open spec fn deep_view(&self) -> ProxySettingsView {
        match self {
            ProxySettings::Shadowsocks(s) => ProxySettingsView::Shadowsocks(s.deep_view()),
        }
    }
}

/// A latitude or longitude, held in fixed point as millionths of a degree.
#[derive(Clone, Copy, Debug, PartialEq, Eq, Hash, Structural)]
pub struct Coordinate {
    pub micro_degrees: i64,
}

impl Coordinate {
    /// Bound within which the wire format can carry a coordinate.
    pub open spec fn is_valid(self) -> bool {
        -1000000000 < self.micro_degrees < 1000000000
    }
}

/// Runtime-only annotation attached to a relay by an external geo component.
/// It is never part of the serialized catalog.
#[derive(Clone, Debug, PartialEq, Eq, Hash)]
pub struct Location {
    pub country_code: String,
    pub city_code: String,
    pub latitude: Coordinate,
    pub longitude: Coordinate,
}

/// The mathematical value of a [`Location`].
pub struct LocationView {
    pub country_code: Seq<char>,
    pub city_code: Seq<char>,
    pub latitude: Coordinate,
    pub longitude: Coordinate,
}

impl DeepView for Location {
    type V = LocationView;

    open spec fn deep_view(&self) -> LocationView {
        LocationView {
            country_code: self.country_code@,
            city_code: self.city_code@,
            latitude: self.latitude,
            longitude: self.longitude,
        }
    }
}

impl DeepView for TransportProtocol {
    type V = TransportProtocol;

    open spec fn deep_view(&self) -> TransportProtocol {
        *self
    }
}

} // verus!
