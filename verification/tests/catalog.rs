use relay_list::catalog::{
    OpenVpnEndpointData, Relay, RelayBridges, RelayList, RelayListCity, RelayListCountry,
    RelayTunnels, ShadowsocksEndpointData, WireguardEndpointData,
};
use relay_list::net::{
    Coordinate, Endpoint, IpAddress, Ipv4Address, Ipv6Address, MullvadEndpoint, ProxySettings,
    SocketAddress, TransportProtocol,
};

fn sample_relay() -> Relay {
    Relay {
        hostname: String::from("se1-wg"),
        ipv4_addr_in: Ipv4Address::new(185, 213, 154, 68),
        include_in_country: true,
        weight: 100,
        tunnels: RelayTunnels {
            openvpn: vec![OpenVpnEndpointData { port: 1194, protocol: TransportProtocol::Udp }],
            wireguard: vec![WireguardEndpointData {
                port_ranges: vec![(53, 53), (4000, 33433)],
                ipv4_gateway: Ipv4Address::new(10, 64, 0, 1),
                ipv6_gateway: Ipv6Address {
                    group0: 0xfc00,
                    group1: 0xbbbb,
                    group2: 0xbbbb,
                    group3: 0xbb01,
                    group4: 0,
                    group5: 0,
                    group6: 0,
                    group7: 1,
                },
                public_key: String::from("key1"),
            }],
        },
        bridges: RelayBridges {
            shadowsocks: vec![ShadowsocksEndpointData {
                port: 443,
                cipher: String::from("aes-256-gcm"),
                password: String::from("pw1"),
                protocol: TransportProtocol::Tcp,
            }],
        },
        location: None,
    }
}

fn sample_catalog() -> RelayList {
    RelayList {
        countries: vec![RelayListCountry {
            name: String::from("Sweden"),
            code: String::from("se"),
            cities: vec![RelayListCity {
                name: String::from("Gothenburg"),
                code: String::from("got"),
                latitude: Coordinate { micro_degrees: 57_708_870 },
                longitude: Coordinate { micro_degrees: 11_974_560 },
                relays: vec![sample_relay()],
            }],
        }],
    }
}

const SAMPLE_PAYLOAD: &str = "{\"countries\":[{\"name\":\"Sweden\",\"code\":\"se\",\"cities\":[{\"name\":\"Gothenburg\",\"code\":\"got\",\"latitude\":57.708870,\"longitude\":11.974560,\"relays\":[{\"hostname\":\"se1-wg\",\"ipv4_addr_in\":\"185.213.154.68\",\"include_in_country\":true,\"weight\":100,\"tunnels\":{\"openvpn\":[{\"port\":1194,\"protocol\":\"udp\"}],\"wireguard\":[{\"port_ranges\":[[53,53],[4000,33433]],\"ipv4_gateway\":\"10.64.0.1\",\"ipv6_gateway\":\"fc00:bbbb:bbbb:bb01:0:0:0:1\",\"public_key\":\"key1\"}]},\"bridges\":{\"shadowsocks\":[{\"port\":443,\"cipher\":\"aes-256-gcm\",\"password\":\"pw1\",\"protocol\":\"tcp\"}]}}]}]}]}";

#[test]
fn empty_catalog_has_no_countries() {
    let catalog = RelayList::empty();
    assert_eq!(catalog.countries.len(), 0);
}

#[test]
fn empty_catalog_serializes_to_countries_key_only() {
    let catalog = RelayList::empty();
    assert_eq!(catalog.serialize(), "{\"countries\":[]}");
}

#[test]
fn empty_payload_deserializes_to_empty_catalog() {
    let catalog = RelayList::deserialize("{\"countries\":[]}").unwrap();
    assert_eq!(catalog.countries.len(), 0);
}

#[test]
fn serialize_emits_the_sample_payload() {
    assert_eq!(sample_catalog().serialize(), SAMPLE_PAYLOAD);
}

#[test]
fn deserialize_reads_the_sample_payload() {
    let catalog = RelayList::deserialize(SAMPLE_PAYLOAD).unwrap();
    assert_eq!(catalog.countries.len(), 1);
    let country = &catalog.countries[0];
    assert_eq!(country.name, "Sweden");
    assert_eq!(country.code, "se");
    let city = &country.cities[0];
    assert_eq!(city.name, "Gothenburg");
    assert_eq!(city.latitude, Coordinate { micro_degrees: 57_708_870 });
    assert_eq!(city.longitude, Coordinate { micro_degrees: 11_974_560 });
    let relay = &city.relays[0];
    assert_eq!(relay.hostname, "se1-wg");
    assert_eq!(relay.ipv4_addr_in, Ipv4Address::new(185, 213, 154, 68));
    assert!(relay.include_in_country);
    assert_eq!(relay.weight, 100);
    assert!(relay.location.is_none());
    assert_eq!(relay.tunnels.openvpn.len(), 1);
    assert_eq!(
        relay.tunnels.openvpn[0],
        OpenVpnEndpointData { port: 1194, protocol: TransportProtocol::Udp }
    );
    let wg = &relay.tunnels.wireguard[0];
    assert_eq!(wg.port_ranges, vec![(53, 53), (4000, 33433)]);
    assert_eq!(wg.public_key, "key1");
    let ss = &relay.bridges.shadowsocks[0];
    assert_eq!(ss.port, 443);
    assert_eq!(ss.cipher, "aes-256-gcm");
}

#[test]
fn round_trip_preserves_the_catalog() {
    let first = RelayList::deserialize(SAMPLE_PAYLOAD).unwrap();
    let payload = first.serialize();
    let second = RelayList::deserialize(payload.as_str()).unwrap();
    assert_eq!(payload, second.serialize());
    assert_eq!(first.countries[0].code, second.countries[0].code);
    assert_eq!(
        first.countries[0].cities[0].relays[0].hostname,
        second.countries[0].cities[0].relays[0].hostname
    );
    assert!(second.countries[0].cities[0].relays[0].location.is_none());
}

#[test]
fn round_trip_normalizes_short_coordinates() {
    let payload = "{\"countries\":[{\"name\":\"Peru\",\"code\":\"pe\",\"cities\":[{\"name\":\"Lima\",\"code\":\"lim\",\"latitude\":-12.05,\"longitude\":-77,\"relays\":[]}]}]}";
    let catalog = RelayList::deserialize(payload).unwrap();
    let city = &catalog.countries[0].cities[0];
    assert_eq!(city.latitude, Coordinate { micro_degrees: -12_050_000 });
    assert_eq!(city.longitude, Coordinate { micro_degrees: -77_000_000 });
    let canonical = catalog.serialize();
    assert!(canonical.contains("\"latitude\":-12.050000,\"longitude\":-77.000000"));
    let again = RelayList::deserialize(canonical.as_str()).unwrap();
    assert_eq!(again.serialize(), canonical);
}

#[test]
fn relay_with_empty_sets_serializes_without_their_keys() {
    let catalog = RelayList {
        countries: vec![RelayListCountry {
            name: String::from("Sweden"),
            code: String::from("se"),
            cities: vec![RelayListCity {
                name: String::from("Malmo"),
                code: String::from("mma"),
                latitude: Coordinate { micro_degrees: 55_605_000 },
                longitude: Coordinate { micro_degrees: 13_000_200 },
                relays: vec![Relay {
                    hostname: String::from("se2"),
                    ipv4_addr_in: Ipv4Address::new(185, 213, 154, 69),
                    include_in_country: false,
                    weight: 0,
                    tunnels: RelayTunnels { openvpn: vec![], wireguard: vec![] },
                    bridges: RelayBridges { shadowsocks: vec![] },
                    location: None,
                }],
            }],
        }],
    };
    let payload = catalog.serialize();
    assert!(!payload.contains("tunnels"));
    assert!(!payload.contains("bridges"));
    assert!(payload.contains(
        "{\"hostname\":\"se2\",\"ipv4_addr_in\":\"185.213.154.69\",\"include_in_country\":false,\"weight\":0}"
    ));
}

#[test]
fn absent_keys_deserialize_to_empty_sets() {
    let payload = "{\"countries\":[{\"name\":\"Sweden\",\"code\":\"se\",\"cities\":[{\"name\":\"Malmo\",\"code\":\"mma\",\"latitude\":55.605000,\"longitude\":13.000200,\"relays\":[{\"hostname\":\"se2\",\"ipv4_addr_in\":\"185.213.154.69\",\"include_in_country\":false,\"weight\":0}]}]}]}";
    let catalog = RelayList::deserialize(payload).unwrap();
    let relay = &catalog.countries[0].cities[0].relays[0];
    assert!(relay.tunnels.is_empty());
    assert!(relay.bridges.is_empty());
}

#[test]
fn explicitly_empty_sets_equal_absent_ones() {
    let payload = "{\"countries\":[{\"name\":\"Sweden\",\"code\":\"se\",\"cities\":[{\"name\":\"Malmo\",\"code\":\"mma\",\"latitude\":55.605000,\"longitude\":13.000200,\"relays\":[{\"hostname\":\"se2\",\"ipv4_addr_in\":\"185.213.154.69\",\"include_in_country\":false,\"weight\":0,\"tunnels\":{\"openvpn\":[],\"wireguard\":[]},\"bridges\":{\"shadowsocks\":[]}}]}]}]}";
    let catalog = RelayList::deserialize(payload).unwrap();
    let relay = &catalog.countries[0].cities[0].relays[0];
    assert!(relay.tunnels.is_empty());
    assert!(relay.bridges.is_empty());
    let canonical = catalog.serialize();
    assert!(!canonical.contains("tunnels"));
    assert!(!canonical.contains("bridges"));
}

#[test]
fn clear_leaves_tunnels_empty_every_time() {
    let mut tunnels = sample_relay().tunnels;
    assert!(!tunnels.is_empty());
    tunnels.clear();
    assert!(tunnels.is_empty());
    tunnels.clear();
    assert!(tunnels.is_empty());
}

#[test]
fn clear_leaves_bridges_empty_every_time() {
    let mut bridges = sample_relay().bridges;
    assert!(!bridges.is_empty());
    bridges.clear();
    assert!(bridges.is_empty());
    bridges.clear();
    assert!(bridges.is_empty());
}

#[test]
fn cleared_tunnels_do_not_affect_extracted_descriptors() {
    let mut tunnels = sample_relay().tunnels;
    let extracted = tunnels.openvpn[0];
    tunnels.clear();
    assert_eq!(extracted, OpenVpnEndpointData { port: 1194, protocol: TransportProtocol::Udp });
}

#[test]
fn openvpn_conversion_preserves_port_and_protocol() {
    let descriptor = OpenVpnEndpointData { port: 1300, protocol: TransportProtocol::Tcp };
    let host = IpAddress::V4(Ipv4Address::new(185, 213, 154, 68));
    let endpoint = descriptor.into_mullvad_endpoint(host);
    assert_eq!(
        endpoint,
        MullvadEndpoint::OpenVpn(Endpoint {
            address: SocketAddress { ip: host, port: 1300 },
            protocol: TransportProtocol::Tcp,
        })
    );
}

#[test]
fn shadowsocks_conversion_copies_every_field() {
    let descriptor = ShadowsocksEndpointData {
        port: 8388,
        cipher: String::from("aes-256-gcm"),
        password: String::from("secret"),
        protocol: TransportProtocol::Tcp,
    };
    let peer = IpAddress::V4(Ipv4Address::new(198, 51, 100, 5));
    let ProxySettings::Shadowsocks(settings) = descriptor.to_proxy_settings(peer);
    assert_eq!(settings.peer, SocketAddress { ip: peer, port: 8388 });
    assert_eq!(settings.cipher, "aes-256-gcm");
    assert_eq!(settings.password, "secret");
}

#[test]
fn descending_port_range_is_rejected() {
    let payload = "{\"countries\":[{\"name\":\"Sweden\",\"code\":\"se\",\"cities\":[{\"name\":\"Malmo\",\"code\":\"mma\",\"latitude\":55.605000,\"longitude\":13.000200,\"relays\":[{\"hostname\":\"se2\",\"ipv4_addr_in\":\"185.213.154.69\",\"include_in_country\":true,\"weight\":1,\"tunnels\":{\"openvpn\":[],\"wireguard\":[{\"port_ranges\":[[2000,1000]],\"ipv4_gateway\":\"10.64.0.1\",\"ipv6_gateway\":\"fc00:0:0:0:0:0:0:1\",\"public_key\":\"k\"}]}}]}]}]}";
    assert!(RelayList::deserialize(payload).is_err());
}

#[test]
fn accepted_ranges_keep_low_at_or_below_high() {
    let catalog = RelayList::deserialize(SAMPLE_PAYLOAD).unwrap();
    for country in &catalog.countries {
        for city in &country.cities {
            for relay in &city.relays {
                for wg in &relay.tunnels.wireguard {
                    for (low, high) in &wg.port_ranges {
                        assert!(low <= high);
                    }
                }
            }
        }
    }
}

#[test]
fn trailing_text_is_rejected() {
    assert!(RelayList::deserialize("{\"countries\":[]} ").is_err());
    assert!(RelayList::deserialize("{\"countries\":[]}x").is_err());
}

#[test]
fn missing_field_is_rejected() {
    let payload = "{\"countries\":[{\"name\":\"Sweden\",\"cities\":[]}]}";
    assert!(RelayList::deserialize(payload).is_err());
}

#[test]
fn wrong_type_is_rejected() {
    let payload = "{\"countries\":[{\"name\":7,\"code\":\"se\",\"cities\":[]}]}";
    assert!(RelayList::deserialize(payload).is_err());
}

#[test]
fn out_of_range_port_is_rejected() {
    let payload = "{\"countries\":[{\"name\":\"Sweden\",\"code\":\"se\",\"cities\":[{\"name\":\"Malmo\",\"code\":\"mma\",\"latitude\":55.605000,\"longitude\":13.000200,\"relays\":[{\"hostname\":\"se2\",\"ipv4_addr_in\":\"185.213.154.69\",\"include_in_country\":true,\"weight\":1,\"tunnels\":{\"openvpn\":[{\"port\":70000,\"protocol\":\"udp\"}],\"wireguard\":[]}}]}]}]}";
    assert!(RelayList::deserialize(payload).is_err());
}

#[test]
fn malformed_octet_is_rejected() {
    let payload = "{\"countries\":[{\"name\":\"Sweden\",\"code\":\"se\",\"cities\":[{\"name\":\"Malmo\",\"code\":\"mma\",\"latitude\":55.605000,\"longitude\":13.000200,\"relays\":[{\"hostname\":\"se2\",\"ipv4_addr_in\":\"185.213.300.69\",\"include_in_country\":true,\"weight\":1}]}]}]}";
    assert!(RelayList::deserialize(payload).is_err());
}

#[test]
fn unknown_escape_is_rejected() {
    let payload = "{\"countries\":[{\"name\":\"Sw\\neden\",\"code\":\"se\",\"cities\":[]}]}";
    assert!(RelayList::deserialize(payload).is_err());
}

#[test]
fn escaped_characters_round_trip() {
    let payload = "{\"countries\":[{\"name\":\"A \\\"B\\\" \\\\ C\",\"code\":\"ab\",\"cities\":[]}]}";
    let catalog = RelayList::deserialize(payload).unwrap();
    assert_eq!(catalog.countries[0].name, "A \"B\" \\ C");
    let again = catalog.serialize();
    assert_eq!(again, payload);
}

#[test]
fn openvpn_display_names_protocol_and_port() {
    let descriptor = OpenVpnEndpointData { port: 1194, protocol: TransportProtocol::Udp };
    assert_eq!(descriptor.display_string(), "udp port 1194");
}

#[test]
fn wireguard_display_names_gateways_ranges_and_key() {
    let wg = &sample_relay().tunnels.wireguard[0];
    assert_eq!(
        wg.display_string(),
        "gateways 10.64.0.1 - fc00:bbbb:bbbb:bb01:0:0:0:1 port_ranges { [53 - 53],[4000 - 33433] } public_key key1"
    );
}
