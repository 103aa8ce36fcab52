//! The relay catalog: countries, cities, relays, and the per-protocol
//! tunnel and bridge data each relay offers.

use vstd::prelude::*;

use crate::net::{
    Coordinate, Endpoint, IpAddress, Ipv4Address, Ipv6Address, Location, LocationView,
    MullvadEndpoint, ProxySettings, ProxySettingsView, ShadowsocksProxySettings, SocketAddress,
    TransportProtocol,
};

verus! {

/// Identifier of a country, unique across the catalog.
pub type CountryCode = String;

/// Identifier of a city, unique within its country.
pub type CityCode = String;

/// The whole catalog: an ordered sequence of countries.
#[derive(Clone, Debug)]
pub struct RelayList {
    pub countries: Vec<RelayListCountry>,
}

/// A country and the cities in it that host relays.
#[derive(Clone, Debug)]
pub struct RelayListCountry {
    pub name: String,
    pub code: CountryCode,
    pub cities: Vec<RelayListCity>,
}

/// A city, its coordinates, and the relays it hosts.
#[derive(Clone, Debug)]
pub struct RelayListCity {
    pub name: String,
    pub code: CityCode,
    pub latitude: Coordinate,
    pub longitude: Coordinate,
    pub relays: Vec<Relay>,
}

/// One relay server and the ways it can be reached.
#[derive(Clone, Debug)]
pub struct Relay {
    pub hostname: String,
    pub ipv4_addr_in: Ipv4Address,
    pub include_in_country: bool,
    pub weight: u64,
    pub tunnels: RelayTunnels,
    pub bridges: RelayBridges,
    pub location: Option<Location>,
}

/// The tunnel endpoints a relay offers, by protocol.
#[derive(Clone, Debug)]
pub struct RelayTunnels {
    pub openvpn: Vec<OpenVpnEndpointData>,
    pub wireguard: Vec<WireguardEndpointData>,
}

/// The bridge endpoints a relay offers.
#[derive(Clone, Debug)]
pub struct RelayBridges {
    pub shadowsocks: Vec<ShadowsocksEndpointData>,
}

/// Parameters of one OpenVPN endpoint on a relay.
#[derive(Clone, Copy, Debug, PartialEq, Eq, Hash, Structural)]
pub struct OpenVpnEndpointData {
    pub port: u16,
    pub protocol: TransportProtocol,
}

/// Parameters of one WireGuard gateway on a relay.
#[derive(Clone, Debug, PartialEq, Eq, Hash)]
pub struct WireguardEndpointData {
    /// Inclusive `(low, high)` port ranges offered by this gateway.
    pub port_ranges: Vec<(u16, u16)>,
    /// Gateway address inside the tunnel, IPv4.
    pub ipv4_gateway: Ipv4Address,
    /// Gateway address inside the tunnel, IPv6.
    pub ipv6_gateway: Ipv6Address,
    /// The peer's public key, as its textual (base64) form.
    pub public_key: String,
}

/// Parameters of one Shadowsocks bridge on a relay.
#[derive(Clone, Debug, PartialEq, Eq, Hash)]
pub struct ShadowsocksEndpointData {
    pub port: u16,
    pub cipher: String,
    pub password: String,
    pub protocol: TransportProtocol,
}

/// The mathematical value of a [`WireguardEndpointData`].
pub struct WireguardEndpointDataView {
    pub port_ranges: Seq<(u16, u16)>,
    pub ipv4_gateway: Ipv4Address,
    pub ipv6_gateway: Ipv6Address,
    pub public_key: Seq<char>,
}

/// The mathematical value of a [`ShadowsocksEndpointData`].
pub struct ShadowsocksEndpointDataView {
    pub port: u16,
    pub cipher: Seq<char>,
    pub password: Seq<char>,
    pub protocol: TransportProtocol,
}

/// The mathematical value of a [`RelayTunnels`].
pub struct RelayTunnelsView {
    pub openvpn: Seq<OpenVpnEndpointData>,
    pub wireguard: Seq<WireguardEndpointDataView>,
}

/// The mathematical value of a [`RelayBridges`].
pub struct RelayBridgesView {
    pub shadowsocks: Seq<ShadowsocksEndpointDataView>,
}

/// The mathematical value of a [`Relay`].
pub struct RelayView {
    pub hostname: Seq<char>,
    pub ipv4_addr_in: Ipv4Address,
    pub include_in_country: bool,
    pub weight: u64,
    pub tunnels: RelayTunnelsView,
    pub bridges: RelayBridgesView,
    pub location: Option<LocationView>,
}

/// The mathematical value of a [`RelayListCity`].
pub struct RelayListCityView {
    pub name: Seq<char>,
    pub code: Seq<char>,
    pub latitude: Coordinate,
    pub longitude: Coordinate,
    pub relays: Seq<RelayView>,
}

/// The mathematical value of a [`RelayListCountry`].
pub struct RelayListCountryView {
    pub name: Seq<char>,
    pub code: Seq<char>,
    pub cities: Seq<RelayListCityView>,
}

/// The mathematical value of a [`RelayList`].
pub struct RelayListView {
    pub countries: Seq<RelayListCountryView>,
}

impl DeepView for OpenVpnEndpointData {
    type V = OpenVpnEndpointData;

    open spec fn deep_view(&self) -> OpenVpnEndpointData {
        *self
    }
}

impl DeepView for WireguardEndpointData {
    type V = WireguardEndpointDataView;

    open spec fn deep_view(&self) -> WireguardEndpointDataView {
        WireguardEndpointDataView {
            port_ranges: self.port_ranges.deep_view(),
            ipv4_gateway: self.ipv4_gateway,
            ipv6_gateway: self.ipv6_gateway,
            public_key: self.public_key@,
        }
    }
}

impl DeepView for ShadowsocksEndpointData {
    type V = ShadowsocksEndpointDataView;

    open spec fn deep_view(&self) -> ShadowsocksEndpointDataView {
        ShadowsocksEndpointDataView {
            port: self.port,
            cipher: self.cipher@,
            password: self.password@,
            protocol: self.protocol,
        }
    }
}

impl DeepView for RelayTunnels {
    type V = RelayTunnelsView;

    open spec fn deep_view(&self) -> RelayTunnelsView {
        RelayTunnelsView { openvpn: self.openvpn.deep_view(), wireguard: self.wireguard.deep_view() }
    }
}

impl DeepView for RelayBridges {
    type V = RelayBridgesView;

    open spec fn deep_view(&self) -> RelayBridgesView {
        RelayBridgesView { shadowsocks: self.shadowsocks.deep_view() }
    }
}

impl DeepView for Relay {
    type V = RelayView;

    open spec fn deep_view(&self) -> RelayView {
        RelayView {
            hostname: self.hostname@,
            ipv4_addr_in: self.ipv4_addr_in,
            include_in_country: self.include_in_country,
            weight: self.weight,
            tunnels: self.tunnels.deep_view(),
            bridges: self.bridges.deep_view(),
            location: self.location.deep_view(),
        }
    }
}

impl DeepView for RelayListCity {
    type V = RelayListCityView;

    open spec fn deep_view(&self) -> RelayListCityView {
        RelayListCityView {
            name: self.name@,
            code: self.code@,
            latitude: self.latitude,
            longitude: self.longitude,
            relays: self.relays.deep_view(),
        }
    }
}

impl DeepView for RelayListCountry {
    type V = RelayListCountryView;

    open spec fn deep_view(&self) -> RelayListCountryView {
        RelayListCountryView {
            name: self.name@,
            code: self.code@,
            cities: self.cities.deep_view(),
        }
    }
}

impl DeepView for RelayList {
    type V = RelayListView;

    open spec fn deep_view(&self) -> RelayListView {
        RelayListView { countries: self.countries.deep_view() }
    }
}

impl RelayList {
    /// The catalog with no countries: the safe default before a first fetch.
    pub fn empty() -> (r: Self)
        ensures
            r.deep_view().countries =~= Seq::<RelayListCountryView>::empty(),
    {
        Self { countries: Vec::new() }
    }
}

impl RelayTunnelsView {
    /// A tunnel set is empty when it offers no endpoint of any protocol.
    pub open spec fn is_empty(self) -> bool {
        self.openvpn.len() == 0 && self.wireguard.len() == 0
    }
}

impl RelayTunnels {
    /// True exactly when no tunnel endpoint of any protocol is present.
    pub fn is_empty(&self) -> (r: bool)
        ensures
            r == self.deep_view().is_empty(),
    {
        self.openvpn.is_empty() && self.wireguard.is_empty()
    }

    /// Empties both protocol lists; afterwards the set is empty whatever it
    /// held before.
    pub fn clear(&mut self)
        ensures
            final(self).deep_view().is_empty(),
            final(self).deep_view().openvpn =~= Seq::<OpenVpnEndpointData>::empty(),
            final(self).deep_view().wireguard =~= Seq::<WireguardEndpointDataView>::empty(),
    {
        self.openvpn.clear();
        self.wireguard.clear();
    }
}

impl RelayBridgesView {
    /// A bridge set is empty when it offers no bridge endpoint.
    pub open spec fn is_empty(self) -> bool {
        self.shadowsocks.len() == 0
    }
}

impl RelayBridges {
    /// True exactly when no bridge endpoint is present.
    pub fn is_empty(&self) -> (r: bool)
        ensures
            r == self.deep_view().is_empty(),
    {
        self.shadowsocks.is_empty()
    }

    /// Empties the bridge list; afterwards the set is empty whatever it held
    /// before.
    pub fn clear(&mut self)
        ensures
            final(self).deep_view().is_empty(),
            final(self).deep_view().shadowsocks =~= Seq::<ShadowsocksEndpointDataView>::empty(),
    {
        self.shadowsocks.clear();
    }
}

impl OpenVpnEndpointData {
    /// Pairs this descriptor with the relay's address, preserving the port
    /// and protocol unchanged. Total: succeeds for every descriptor and host.
    pub fn into_mullvad_endpoint(self, host: IpAddress) -> (r: MullvadEndpoint)
        ensures
            r == MullvadEndpoint::OpenVpn(
                Endpoint {
                    address: SocketAddress { ip: host, port: self.port },
                    protocol: self.protocol,
                },
            ),
    {
        MullvadEndpoint::OpenVpn(Endpoint::new(host, self.port, self.protocol))
    }
}

impl ShadowsocksEndpointData {
    /// Builds the proxy settings for this bridge at the given peer address:
    /// the peer is `(addr, port)` and the password and cipher are copied
    /// unchanged. Total: succeeds for every descriptor and address.
    pub fn to_proxy_settings(&self, addr: IpAddress) -> (r: ProxySettings)
        ensures
            ({
                let ProxySettingsView::Shadowsocks(s) = r.deep_view();
                &&& s.peer == (SocketAddress { ip: addr, port: self.port })
                &&& s.password == self.password@
                &&& s.cipher == self.cipher@
            }),
    {
        ProxySettings::Shadowsocks(ShadowsocksProxySettings {
            peer: SocketAddress { ip: addr, port: self.port },
            password: self.password.clone(),
            cipher: self.cipher.clone(),
        })
    }
}

} // verus!
