//! The executable encoder and decoder for the catalog's wire format.
//!
//! The encoder emits exactly the text that [`crate::wire`] defines; the
//! decoder returns exactly what the spec parser reads, and an error exactly
//! when the spec parser refuses the payload or leaves text over.

use vstd::prelude::*;

use crate::catalog::{
    OpenVpnEndpointData, Relay, RelayBridges, RelayList, RelayListCity, RelayListCityView,
    RelayListCountry, RelayListCountryView, RelayTunnels, RelayView, ShadowsocksEndpointData,
    ShadowsocksEndpointDataView, WireguardEndpointData, WireguardEndpointDataView,
};
use crate::net::{Coordinate, Ipv4Address, Ipv6Address, TransportProtocol};
use crate::numerals::{
    base_pow, digit_val_x, digits_prefix, is_digit, lemma_digits_prefix_of_concat, parse_nat_x,
    val_of, write_numeral, write_numeral_fixed,
};
use crate::wire::{
    joined, parse_bool, parse_coord_frac, parse_coord_mag, parse_coordinate, parse_ipv4,
    parse_ipv6, parse_lit, parse_list, parse_list_more, parse_protocol, parse_string,
    parse_string_body, ser_bool, ser_coordinate, ser_ipv4, ser_ipv6, ser_protocol, ser_string,
    ser_string_body,
};
use crate::wire::{
    f_parse_city, f_parse_country, f_parse_openvpn, f_parse_range, f_parse_relay,
    f_parse_shadowsocks, f_parse_wireguard, f_ser_city, f_ser_country, f_ser_openvpn, f_ser_range,
    f_ser_relay, f_ser_shadowsocks, f_ser_wireguard,
};
use crate::wire::{
    parse_bridges, parse_catalog, parse_city, parse_country, parse_openvpn, parse_range,
    parse_relay, parse_relay_opts, parse_shadowsocks, parse_tunnels, parse_wireguard, ser_bridges,
    ser_catalog, ser_city, ser_country, ser_openvpn, ser_range, ser_relay, ser_shadowsocks,
    ser_tunnels, ser_wireguard,
};
use crate::wire::{empty_bridges, empty_tunnels};
use crate::wire::{lemma_base_pow_add, parse_colon_group, parse_dot_octet};

verus! {

/// Relies on `String::from_iter` (via `collect`): the string holds exactly
/// these characters in order.
#[verifier::external_body]
fn chars_to_string(v: Vec<char>) -> (r: String)
    ensures
        r@ == v@,
{
    v.into_iter().collect()
}

/// Relies on `str::chars` and `collect`: the vector holds exactly the
/// string's characters in order.
#[verifier::external_body]
fn str_to_chars(s: &str) -> (r: Vec<char>)
    ensures
        r@ == s@,
{
    s.chars().collect()
}

/// Appends a fixed text to `out`.
fn push_lit(out: &mut Vec<char>, lit: &str)
    ensures
        final(out)@ == old(out)@ + lit@,
{
    let n = lit.unicode_len();
    let mut j: usize = 0;
    while j < n
        invariant
            j <= n,
            n == lit@.len(),
            out@ == old(out)@ + lit@.subrange(0, j as int),
        decreases n - j,
    {
        let c = lit.get_char(j);
        out.push(c);
        proof {
            assert(out@ =~= old(out)@ + lit@.subrange(0, j + 1));
        }
        j = j + 1;
    }
    proof {
        assert(lit@.subrange(0, n as int) =~= lit@);
    }
}

/// Appends a string in its quoted, escaped wire form to `out`.
fn push_string(out: &mut Vec<char>, s: &str)
    ensures
        final(out)@ == old(out)@ + ser_string(s@),
{
    out.push('"');
    let n = s.unicode_len();
    let mut j: usize = 0;
    while j < n
        invariant
            j <= n,
            n == s@.len(),
            out@ == old(out)@ + seq!['"'] + ser_string_body(s@.subrange(0, j as int)),
        decreases n - j,
    {
        let c = s.get_char(j);
        proof {
            crate::wire::lemma_ser_string_body_push(s@.subrange(0, j as int), s@[j as int]);
            assert(s@.subrange(0, j + 1) =~= s@.subrange(0, j as int).push(s@[j as int]));
        }
        if c == '"' || c == '\\' {
            out.push('\\');
            out.push(c);
            proof {
                assert(out@ =~= old(out)@ + seq!['"'] + ser_string_body(s@.subrange(0, j + 1)));
            }
        } else {
            out.push(c);
            proof {
                assert(out@ =~= old(out)@ + seq!['"'] + ser_string_body(s@.subrange(0, j + 1)));
            }
        }
        j = j + 1;
    }
    out.push('"');
    proof {
        assert(s@.subrange(0, n as int) =~= s@);
        assert(out@ =~= old(out)@ + ser_string(s@));
    }
}

/// Appends a coordinate in its wire form to `out`.
fn write_coordinate(out: &mut Vec<char>, c: Coordinate)
    ensures
        final(out)@ == old(out)@ + ser_coordinate(c),
{
    let mag: u64 = if c.micro_degrees < 0 {
        ((-(c.micro_degrees as i128)) as u64)
    } else {
        (c.micro_degrees as u64)
    };
    if c.micro_degrees < 0 {
        out.push('-');
    }
    write_numeral(out, mag / 1000000, 10);
    out.push('.');
    write_numeral_fixed(out, mag % 1000000, 6, 10);
    proof {
        assert(out@ =~= old(out)@ + ser_coordinate(c));
    }
}

/// Appends an IPv4 address in dotted decimal to `out`.
fn write_ipv4(out: &mut Vec<char>, a: Ipv4Address)
    ensures
        final(out)@ == old(out)@ + ser_ipv4(a),
{
    write_numeral(out, a.octet0 as u64, 10);
    out.push('.');
    write_numeral(out, a.octet1 as u64, 10);
    out.push('.');
    write_numeral(out, a.octet2 as u64, 10);
    out.push('.');
    write_numeral(out, a.octet3 as u64, 10);
    proof {
        assert(out@ =~= old(out)@ + ser_ipv4(a));
    }
}

/// Appends an IPv6 address as eight hexadecimal groups to `out`.
#[verifier::rlimit(100)]
#[verifier::spinoff_prover]
fn write_ipv6(out: &mut Vec<char>, a: Ipv6Address)
    ensures
        final(out)@ == old(out)@ + ser_ipv6(a),
{
    write_numeral(out, a.group0 as u64, 16);
    out.push(':');
    write_numeral(out, a.group1 as u64, 16);
    out.push(':');
    write_numeral(out, a.group2 as u64, 16);
    out.push(':');
    write_numeral(out, a.group3 as u64, 16);
    out.push(':');
    write_numeral(out, a.group4 as u64, 16);
    out.push(':');
    write_numeral(out, a.group5 as u64, 16);
    out.push(':');
    write_numeral(out, a.group6 as u64, 16);
    out.push(':');
    write_numeral(out, a.group7 as u64, 16);
    proof {
        assert(out@ =~= old(out)@ + ser_ipv6(a));
    }
}

/// Appends a protocol name to `out`.
fn write_protocol(out: &mut Vec<char>, p: TransportProtocol)
    ensures
        final(out)@ == old(out)@ + ser_protocol(p),
{
    match p {
        TransportProtocol::Tcp => push_lit(out, "tcp"),
        TransportProtocol::Udp => push_lit(out, "udp"),
    }
}

/// Appends a boolean to `out`.
fn write_bool(out: &mut Vec<char>, b: bool)
    ensures
        final(out)@ == old(out)@ + ser_bool(b),
{
    if b {
        push_lit(out, "true");
    } else {
        push_lit(out, "false");
    }
}

/// Appends one OpenVPN descriptor to `out`.
fn write_openvpn(out: &mut Vec<char>, v: &OpenVpnEndpointData)
    ensures
        final(out)@ == old(out)@ + ser_openvpn(v.deep_view()),
{
    push_lit(out, "{\"port\":");
    write_numeral(out, v.port as u64, 10);
    push_lit(out, ",\"protocol\":\"");
    write_protocol(out, v.protocol);
    push_lit(out, "\"}");
    proof {
        reveal(ser_openvpn);
        assert(out@ =~= old(out)@ + ser_openvpn(v.deep_view()));
    }
}

/// Appends one port range to `out`.
fn write_range(out: &mut Vec<char>, v: (u16, u16))
    ensures
        final(out)@ == old(out)@ + ser_range(v),
{
    out.push('[');
    write_numeral(out, v.0 as u64, 10);
    out.push(',');
    write_numeral(out, v.1 as u64, 10);
    out.push(']');
    proof {
        reveal(ser_range);
        assert(out@ =~= old(out)@ + ser_range(v));
    }
}

/// Appends one WireGuard descriptor to `out`.
fn write_wireguard(out: &mut Vec<char>, v: &WireguardEndpointData)
    ensures
        final(out)@ == old(out)@ + ser_wireguard(v.deep_view()),
{
    push_lit(out, "{\"port_ranges\":[");
    let n = v.port_ranges.len();
    let mut k: usize = 0;
    while k < n
        invariant
            k <= n,
            n == v.port_ranges@.len(),
            v.port_ranges.deep_view().len() == n,
            out@ == old(out)@ + "{\"port_ranges\":["@ + joined(
                v.port_ranges.deep_view().take(k as int),
                f_ser_range(),
            ),
        decreases n - k,
    {
        proof {
            crate::wire::lemma_joined_push(
                v.port_ranges.deep_view().take(k as int),
                f_ser_range(),
                v.port_ranges.deep_view()[k as int],
            );
            assert(v.port_ranges.deep_view().take(k + 1) =~= v.port_ranges.deep_view().take(
                k as int,
            ).push(v.port_ranges.deep_view()[k as int]));
        }
        if k > 0 {
            out.push(',');
        }
        write_range(out, v.port_ranges[k]);
        proof {
            assert(out@ =~= old(out)@ + "{\"port_ranges\":["@ + joined(
                v.port_ranges.deep_view().take(k + 1),
                f_ser_range(),
            ));
        }
        k = k + 1;
    }
    proof {
        assert(v.port_ranges.deep_view().take(n as int) =~= v.port_ranges.deep_view());
    }
    push_lit(out, "],\"ipv4_gateway\":\"");
    write_ipv4(out, v.ipv4_gateway);
    push_lit(out, "\",\"ipv6_gateway\":\"");
    write_ipv6(out, v.ipv6_gateway);
    push_lit(out, "\",\"public_key\":");
    push_string(out, v.public_key.as_str());
    push_lit(out, "}");
    proof {
        reveal(ser_wireguard);
        assert(out@ =~= old(out)@ + ser_wireguard(v.deep_view()));
    }
}

/// Appends one Shadowsocks descriptor to `out`.
fn write_shadowsocks(out: &mut Vec<char>, v: &ShadowsocksEndpointData)
    ensures
        final(out)@ == old(out)@ + ser_shadowsocks(v.deep_view()),
{
    push_lit(out, "{\"port\":");
    write_numeral(out, v.port as u64, 10);
    push_lit(out, ",\"cipher\":");
    push_string(out, v.cipher.as_str());
    push_lit(out, ",\"password\":");
    push_string(out, v.password.as_str());
    push_lit(out, ",\"protocol\":\"");
    write_protocol(out, v.protocol);
    push_lit(out, "\"}");
    proof {
        reveal(ser_shadowsocks);
        assert(out@ =~= old(out)@ + ser_shadowsocks(v.deep_view()));
    }
}

/// Appends a relay's tunnel sets to `out`.
fn write_tunnels(out: &mut Vec<char>, t: &RelayTunnels)
    ensures
        final(out)@ == old(out)@ + ser_tunnels(t.deep_view()),
{
    push_lit(out, "{\"openvpn\":[");
    let ghost mark1 = out@;
    let n = t.openvpn.len();
    let mut k: usize = 0;
    while k < n
        invariant
            k <= n,
            n == t.openvpn@.len(),
            t.openvpn.deep_view().len() == n,
            out@ == mark1 + joined(t.openvpn.deep_view().take(k as int), f_ser_openvpn()),
        decreases n - k,
    {
        proof {
            crate::wire::lemma_joined_push(
                t.openvpn.deep_view().take(k as int),
                f_ser_openvpn(),
                t.openvpn.deep_view()[k as int],
            );
            assert(t.openvpn.deep_view().take(k + 1) =~= t.openvpn.deep_view().take(k as int).push(
                t.openvpn.deep_view()[k as int],
            ));
        }
        if k > 0 {
            out.push(',');
        }
        write_openvpn(out, &t.openvpn[k]);
        proof {
            assert(out@ =~= mark1 + joined(t.openvpn.deep_view().take(k + 1), f_ser_openvpn()));
        }
        k = k + 1;
    }
    proof {
        assert(t.openvpn.deep_view().take(n as int) =~= t.openvpn.deep_view());
    }
    push_lit(out, "],\"wireguard\":[");
    let ghost mark2 = out@;
    let n2 = t.wireguard.len();
    let mut k2: usize = 0;
    while k2 < n2
        invariant
            k2 <= n2,
            n2 == t.wireguard@.len(),
            t.wireguard.deep_view().len() == n2,
            out@ == mark2 + joined(t.wireguard.deep_view().take(k2 as int), f_ser_wireguard()),
        decreases n2 - k2,
    {
        proof {
            crate::wire::lemma_joined_push(
                t.wireguard.deep_view().take(k2 as int),
                f_ser_wireguard(),
                t.wireguard.deep_view()[k2 as int],
            );
            assert(t.wireguard.deep_view().take(k2 + 1) =~= t.wireguard.deep_view().take(
                k2 as int,
            ).push(t.wireguard.deep_view()[k2 as int]));
        }
        if k2 > 0 {
            out.push(',');
        }
        write_wireguard(out, &t.wireguard[k2]);
        proof {
            assert(out@ =~= mark2 + joined(
                t.wireguard.deep_view().take(k2 + 1),
                f_ser_wireguard(),
            ));
        }
        k2 = k2 + 1;
    }
    proof {
        assert(t.wireguard.deep_view().take(n2 as int) =~= t.wireguard.deep_view());
    }
    push_lit(out, "]}");
    proof {
        reveal(ser_tunnels);
        assert(out@ =~= old(out)@ + ser_tunnels(t.deep_view()));
    }
}

/// Appends a relay's bridge set to `out`.
fn write_bridges(out: &mut Vec<char>, b: &RelayBridges)
    ensures
        final(out)@ == old(out)@ + ser_bridges(b.deep_view()),
{
    push_lit(out, "{\"shadowsocks\":[");
    let ghost mark = out@;
    let n = b.shadowsocks.len();
    let mut k: usize = 0;
    while k < n
        invariant
            k <= n,
            n == b.shadowsocks@.len(),
            b.shadowsocks.deep_view().len() == n,
            out@ == mark + joined(b.shadowsocks.deep_view().take(k as int), f_ser_shadowsocks()),
        decreases n - k,
    {
        proof {
            crate::wire::lemma_joined_push(
                b.shadowsocks.deep_view().take(k as int),
                f_ser_shadowsocks(),
                b.shadowsocks.deep_view()[k as int],
            );
            assert(b.shadowsocks.deep_view().take(k + 1) =~= b.shadowsocks.deep_view().take(
                k as int,
            ).push(b.shadowsocks.deep_view()[k as int]));
        }
        if k > 0 {
            out.push(',');
        }
        write_shadowsocks(out, &b.shadowsocks[k]);
        proof {
            assert(out@ =~= mark + joined(
                b.shadowsocks.deep_view().take(k + 1),
                f_ser_shadowsocks(),
            ));
        }
        k = k + 1;
    }
    proof {
        assert(b.shadowsocks.deep_view().take(n as int) =~= b.shadowsocks.deep_view());
    }
    push_lit(out, "]}");
    proof {
        reveal(ser_bridges);
        assert(out@ =~= old(out)@ + ser_bridges(b.deep_view()));
    }
}

/// Appends one relay to `out`, omitting its empty sets and its location.
#[verifier::rlimit(100)]
#[verifier::spinoff_prover]
fn write_relay(out: &mut Vec<char>, v: &Relay)
    ensures
        final(out)@ == old(out)@ + ser_relay(v.deep_view()),
{
    push_lit(out, "{\"hostname\":");
    push_string(out, v.hostname.as_str());
    push_lit(out, ",\"ipv4_addr_in\":\"");
    write_ipv4(out, v.ipv4_addr_in);
    push_lit(out, "\",\"include_in_country\":");
    write_bool(out, v.include_in_country);
    push_lit(out, ",\"weight\":");
    write_numeral(out, v.weight, 10);
    if !v.tunnels.is_empty() {
        push_lit(out, ",\"tunnels\":");
        write_tunnels(out, &v.tunnels);
    }
    if !v.bridges.is_empty() {
        push_lit(out, ",\"bridges\":");
        write_bridges(out, &v.bridges);
    }
    push_lit(out, "}");
    proof {
        reveal(ser_relay);
        assert(out@ =~= old(out)@ + ser_relay(v.deep_view()));
    }
}

/// Appends one city to `out`.
fn write_city(out: &mut Vec<char>, v: &RelayListCity)
    ensures
        final(out)@ == old(out)@ + ser_city(v.deep_view()),
{
    push_lit(out, "{\"name\":");
    push_string(out, v.name.as_str());
    push_lit(out, ",\"code\":");
    push_string(out, v.code.as_str());
    push_lit(out, ",\"latitude\":");
    write_coordinate(out, v.latitude);
    push_lit(out, ",\"longitude\":");
    write_coordinate(out, v.longitude);
    push_lit(out, ",\"relays\":[");
    let ghost mark = out@;
    let n = v.relays.len();
    let mut k: usize = 0;
    while k < n
        invariant
            k <= n,
            n == v.relays@.len(),
            v.relays.deep_view().len() == n,
            out@ == mark + joined(v.relays.deep_view().take(k as int), f_ser_relay()),
        decreases n - k,
    {
        proof {
            crate::wire::lemma_joined_push(
                v.relays.deep_view().take(k as int),
                f_ser_relay(),
                v.relays.deep_view()[k as int],
            );
            assert(v.relays.deep_view().take(k + 1) =~= v.relays.deep_view().take(k as int).push(
                v.relays.deep_view()[k as int],
            ));
        }
        if k > 0 {
            out.push(',');
        }
        write_relay(out, &v.relays[k]);
        proof {
            assert(out@ =~= mark + joined(v.relays.deep_view().take(k + 1), f_ser_relay()));
        }
        k = k + 1;
    }
    proof {
        assert(v.relays.deep_view().take(n as int) =~= v.relays.deep_view());
    }
    push_lit(out, "]}");
    proof {
        reveal(ser_city);
        assert(out@ =~= old(out)@ + ser_city(v.deep_view()));
    }
}

/// Appends one country to `out`.
fn write_country(out: &mut Vec<char>, v: &RelayListCountry)
    ensures
        final(out)@ == old(out)@ + ser_country(v.deep_view()),
{
    push_lit(out, "{\"name\":");
    push_string(out, v.name.as_str());
    push_lit(out, ",\"code\":");
    push_string(out, v.code.as_str());
    push_lit(out, ",\"cities\":[");
    let ghost mark = out@;
    let n = v.cities.len();
    let mut k: usize = 0;
    while k < n
        invariant
            k <= n,
            n == v.cities@.len(),
            v.cities.deep_view().len() == n,
            out@ == mark + joined(v.cities.deep_view().take(k as int), f_ser_city()),
        decreases n - k,
    {
        proof {
            crate::wire::lemma_joined_push(
                v.cities.deep_view().take(k as int),
                f_ser_city(),
                v.cities.deep_view()[k as int],
            );
            assert(v.cities.deep_view().take(k + 1) =~= v.cities.deep_view().take(k as int).push(
                v.cities.deep_view()[k as int],
            ));
        }
        if k > 0 {
            out.push(',');
        }
        write_city(out, &v.cities[k]);
        proof {
            assert(out@ =~= mark + joined(v.cities.deep_view().take(k + 1), f_ser_city()));
        }
        k = k + 1;
    }
    proof {
        assert(v.cities.deep_view().take(n as int) =~= v.cities.deep_view());
    }
    push_lit(out, "]}");
    proof {
        reveal(ser_country);
        assert(out@ =~= old(out)@ + ser_country(v.deep_view()));
    }
}

impl RelayList {
    /// Writes this catalog as its wire payload: exactly the text that
    /// [`ser_catalog`] defines for its value.
    pub fn serialize(&self) -> (r: String)
        ensures
            r@ == ser_catalog(self.deep_view()),
    {
        let mut out: Vec<char> = Vec::new();
        push_lit(&mut out, "{\"countries\":[");
        let ghost mark = out@;
        let n = self.countries.len();
        let mut k: usize = 0;
        while k < n
            invariant
                k <= n,
                n == self.countries@.len(),
                self.countries.deep_view().len() == n,
                out@ == mark + joined(self.countries.deep_view().take(k as int), f_ser_country()),
            decreases n - k,
        {
            proof {
                crate::wire::lemma_joined_push(
                    self.countries.deep_view().take(k as int),
                    f_ser_country(),
                    self.countries.deep_view()[k as int],
                );
                assert(self.countries.deep_view().take(k + 1) =~= self.countries.deep_view().take(
                    k as int,
                ).push(self.countries.deep_view()[k as int]));
            }
            if k > 0 {
                out.push(',');
            }
            write_country(&mut out, &self.countries[k]);
            proof {
                assert(out@ =~= mark + joined(
                    self.countries.deep_view().take(k + 1),
                    f_ser_country(),
                ));
            }
            k = k + 1;
        }
        proof {
            assert(self.countries.deep_view().take(n as int) =~= self.countries.deep_view());
        }
        push_lit(&mut out, "]}");
        proof {
            reveal(ser_catalog);
            assert(out@ =~= ser_catalog(self.deep_view()));
        }
        chars_to_string(out)
    }
}

} // verus!

verus! {

/// Matches a fixed text at position `i`; on success returns the position
/// after it.
fn match_lit(s: &Vec<char>, i: usize, lit: &str) -> (r: Option<usize>)
    requires
        i <= s@.len(),
    ensures
        match r {
            Some(j) => i <= j <= s@.len() && j - i == lit@.len() && parse_lit(
                s@.skip(i as int),
                lit@,
            ) == Some(s@.skip(j as int)),
            None => parse_lit(s@.skip(i as int), lit@) is None,
        },
{
    let n = lit.unicode_len();
    if n > s.len() - i {
        return None;
    }
    let mut j: usize = 0;
    while j < n
        invariant
            0 <= j <= n,
            n == lit@.len(),
            i + n <= s@.len(),
            s@.len() <= usize::MAX,
            forall|k: int| 0 <= k < j ==> s@[i + k] == lit@[k],
        decreases n - j,
    {
        if s[i + j] != lit.get_char(j) {
            proof {
                let s0 = s@.skip(i as int);
                assert(s0.subrange(0, n as int)[j as int] == s@[i + j]);
                assert(s0.subrange(0, n as int) != lit@);
            }
            return None;
        }
        j = j + 1;
    }
    proof {
        let s0 = s@.skip(i as int);
        assert(s0.subrange(0, n as int) =~= lit@);
        assert(s0.skip(n as int) =~= s@.skip((i + n) as int));
    }
    Some(i + n)
}

/// Reads a quoted string at position `i`.
fn parse_string_x(s: &Vec<char>, i: usize) -> (r: Option<(String, usize)>)
    requires
        i <= s@.len(),
    ensures
        match r {
            Some(p) => i < p.1 <= s@.len() && parse_string(s@.skip(i as int)) == Some(
                (p.0@, s@.skip(p.1 as int)),
            ),
            None => parse_string(s@.skip(i as int)) is None,
        },
{
    if !(i < s.len() && s[i] == '"') {
        proof {
            if s@.skip(i as int).len() > 0 {
                assert(s@.skip(i as int)[0] == s@[i as int]);
            }
        }
        return None;
    }
    proof {
        assert(s@.skip(i as int)[0] == '"');
    }
    let ghost body0 = s@.skip(i + 1);
    proof {
        assert(s@.skip(i as int).skip(1) =~= body0);
    }
    let mut acc: Vec<char> = Vec::new();
    let mut pos: usize = i + 1;
    loop
        invariant
            i + 1 <= pos <= s@.len(),
            body0 == s@.skip(i + 1),
            parse_string(s@.skip(i as int)) == parse_string_body(body0),
            ({
                match parse_string_body(s@.skip(pos as int)) {
                    Some(q) => parse_string_body(body0) == Some((acc@ + q.0, q.1)),
                    None => parse_string_body(body0) is None,
                }
            }),
        decreases s@.len() - pos,
    {
        if pos >= s.len() {
            return None;
        }
        let c = s[pos];
        if c == '"' {
            proof {
                assert(s@.skip(pos as int)[0] == '"');
                assert(s@.skip(pos as int).skip(1) =~= s@.skip(pos + 1));
                assert(acc@ + Seq::<char>::empty() =~= acc@);
            }
            let out = chars_to_string(acc);
            return Some((out, pos + 1));
        }
        if c == '\\' {
            if pos + 1 >= s.len() {
                proof {
                    assert(s@.skip(pos as int).len() == 1);
                    assert(parse_string_body(s@.skip(pos as int)) is None);
                }
                return None;
            }
            let e = s[pos + 1];
            if e == '"' || e == '\\' {
                proof {
                    assert(s@.skip(pos as int)[0] == '\\');
                    assert(s@.skip(pos as int)[1] == e);
                    assert(s@.skip(pos as int).len() >= 2);
                    assert(s@.skip(pos as int).skip(2) =~= s@.skip(pos + 2));
                    if parse_string_body(s@.skip(pos + 2)) is Some {
                        let q = parse_string_body(s@.skip(pos + 2))->Some_0;
                        assert(parse_string_body(s@.skip(pos as int)) == Some(
                            (seq![e] + q.0, q.1),
                        ));
                        assert(acc@ + (seq![e] + q.0) =~= acc@.push(e) + q.0);
                    }
                }
                acc.push(e);
                pos = pos + 2;
            } else {
                proof {
                    assert(s@.skip(pos as int)[0] == '\\');
                    assert(s@.skip(pos as int)[1] == e);
                    assert(parse_string_body(s@.skip(pos as int)) is None);
                }
                return None;
            }
        } else {
            proof {
                assert(s@.skip(pos as int)[0] == c);
                assert(s@.skip(pos as int).skip(1) =~= s@.skip(pos + 1));
                if parse_string_body(s@.skip(pos + 1)) is Some {
                    let q = parse_string_body(s@.skip(pos + 1))->Some_0;
                    assert(parse_string_body(s@.skip(pos as int)) == Some((seq![c] + q.0, q.1)));
                    assert(acc@ + (seq![c] + q.0) =~= acc@.push(c) + q.0);
                }
            }
            acc.push(c);
            pos = pos + 1;
        }
    }
}

/// Reads a boolean at position `i`.
fn parse_bool_x(s: &Vec<char>, i: usize) -> (r: Option<(bool, usize)>)
    requires
        i <= s@.len(),
    ensures
        match r {
            Some(p) => i < p.1 <= s@.len() && parse_bool(s@.skip(i as int)) == Some(
                (p.0, s@.skip(p.1 as int)),
            ),
            None => parse_bool(s@.skip(i as int)) is None,
        },
{
    proof {
        reveal_strlit("true");
        reveal_strlit("false");
    }
    if i < s.len() && s[i] == 't' {
        match match_lit(s, i, "true") {
            None => None,
            Some(j) => Some((true, j)),
        }
    } else if i < s.len() && s[i] == 'f' {
        match match_lit(s, i, "false") {
            None => None,
            Some(j) => Some((false, j)),
        }
    } else {
        None
    }
}

/// Reads a protocol name at position `i`.
fn parse_protocol_x(s: &Vec<char>, i: usize) -> (r: Option<(TransportProtocol, usize)>)
    requires
        i <= s@.len(),
    ensures
        match r {
            Some(p) => i < p.1 <= s@.len() && parse_protocol(s@.skip(i as int)) == Some(
                (p.0, s@.skip(p.1 as int)),
            ),
            None => parse_protocol(s@.skip(i as int)) is None,
        },
{
    proof {
        reveal_strlit("tcp");
        reveal_strlit("udp");
    }
    if i < s.len() && s[i] == 't' {
        match match_lit(s, i, "tcp") {
            None => None,
            Some(j) => Some((TransportProtocol::Tcp, j)),
        }
    } else if i < s.len() && s[i] == 'u' {
        match match_lit(s, i, "udp") {
            None => None,
            Some(j) => Some((TransportProtocol::Udp, j)),
        }
    } else {
        None
    }
}

/// Reads an IPv4 address at position `i`.
fn parse_ipv4_x(s: &Vec<char>, i: usize) -> (r: Option<(Ipv4Address, usize)>)
    requires
        i <= s@.len(),
    ensures
        match r {
            Some(p) => i < p.1 <= s@.len() && parse_ipv4(s@.skip(i as int)) == Some(
                (p.0, s@.skip(p.1 as int)),
            ),
            None => parse_ipv4(s@.skip(i as int)) is None,
        },
{
    let (o0, j0) = match parse_nat_x(s, i, 10, 255) {
        None => {
            return None;
        },
        Some(p) => p,
    };
    let (o1, j1) = match parse_dot_octet_x(s, j0) {
        None => {
            return None;
        },
        Some(p) => p,
    };
    let (o2, j2) = match parse_dot_octet_x(s, j1) {
        None => {
            return None;
        },
        Some(p) => p,
    };
    let (o3, j3) = match parse_dot_octet_x(s, j2) {
        None => {
            return None;
        },
        Some(p) => p,
    };
    Some(
        (
            Ipv4Address {
                octet0: o0 as u8,
                octet1: o1 as u8,
                octet2: o2 as u8,
                octet3: o3 as u8,
            },
            j3,
        ),
    )
}

/// Reads a dot and a decimal octet at position `i`.
fn parse_dot_octet_x(s: &Vec<char>, i: usize) -> (r: Option<(u64, usize)>)
    requires
        i <= s@.len(),
    ensures
        match r {
            Some(p) => i < p.1 <= s@.len() && p.0 <= 255 && parse_dot_octet(
                s@.skip(i as int),
            ) == Some((p.0 as nat, s@.skip(p.1 as int))),
            None => parse_dot_octet(s@.skip(i as int)) is None,
        },
{
    if i < s.len() && s[i] == '.' {
        proof {
            assert(s@.skip(i as int).skip(1) =~= s@.skip(i + 1));
        }
        parse_nat_x(s, i + 1, 10, 255)
    } else {
        None
    }
}

/// Reads a colon and a hexadecimal group at position `i`.
fn parse_colon_group_x(s: &Vec<char>, i: usize) -> (r: Option<(u64, usize)>)
    requires
        i <= s@.len(),
    ensures
        match r {
            Some(p) => i < p.1 <= s@.len() && p.0 <= 65535 && parse_colon_group(
                s@.skip(i as int),
            ) == Some((p.0 as nat, s@.skip(p.1 as int))),
            None => parse_colon_group(s@.skip(i as int)) is None,
        },
{
    if i < s.len() && s[i] == ':' {
        proof {
            assert(s@.skip(i as int).skip(1) =~= s@.skip(i + 1));
        }
        parse_nat_x(s, i + 1, 16, 65535)
    } else {
        None
    }
}

/// Reads an IPv6 address at position `i`.
fn parse_ipv6_x(s: &Vec<char>, i: usize) -> (r: Option<(Ipv6Address, usize)>)
    requires
        i <= s@.len(),
    ensures
        match r {
            Some(p) => i < p.1 <= s@.len() && parse_ipv6(s@.skip(i as int)) == Some(
                (p.0, s@.skip(p.1 as int)),
            ),
            None => parse_ipv6(s@.skip(i as int)) is None,
        },
{
    let (g0, j0) = match parse_nat_x(s, i, 16, 65535) {
        None => {
            return None;
        },
        Some(p) => p,
    };
    let (g1, j1) = match parse_colon_group_x(s, j0) {
        None => {
            return None;
        },
        Some(p) => p,
    };
    let (g2, j2) = match parse_colon_group_x(s, j1) {
        None => {
            return None;
        },
        Some(p) => p,
    };
    let (g3, j3) = match parse_colon_group_x(s, j2) {
        None => {
            return None;
        },
        Some(p) => p,
    };
    let (g4, j4) = match parse_colon_group_x(s, j3) {
        None => {
            return None;
        },
        Some(p) => p,
    };
    let (g5, j5) = match parse_colon_group_x(s, j4) {
        None => {
            return None;
        },
        Some(p) => p,
    };
    let (g6, j6) = match parse_colon_group_x(s, j5) {
        None => {
            return None;
        },
        Some(p) => p,
    };
    let (g7, j7) = match parse_colon_group_x(s, j6) {
        None => {
            return None;
        },
        Some(p) => p,
    };
    Some(
        (
            Ipv6Address {
                group0: g0 as u16,
                group1: g1 as u16,
                group2: g2 as u16,
                group3: g3 as u16,
                group4: g4 as u16,
                group5: g5 as u16,
                group6: g6 as u16,
                group7: g7 as u16,
            },
            j7,
        ),
    )
}

/// Reads a coordinate's fraction digits at position `i`.
fn parse_frac_x(s: &Vec<char>, i: usize) -> (r: Option<(u64, usize)>)
    requires
        i <= s@.len(),
    ensures
        match r {
            Some(p) => i < p.1 <= s@.len() && p.0 <= 999999 && parse_coord_frac(s@.skip(i as int))
                == Some((p.0 as nat, s@.skip(p.1 as int))),
            None => parse_coord_frac(s@.skip(i as int)) is None,
        },
{
    let ghost s0 = s@.skip(i as int);
    let mut j: usize = i;
    loop
        invariant
            i <= j <= s@.len(),
            forall|k: int| i <= k < j ==> is_digit(#[trigger] s@[k], 10),
        ensures
            i <= j <= s@.len(),
            forall|k: int| i <= k < j ==> is_digit(#[trigger] s@[k], 10),
            j == s@.len() || !is_digit(s@[j as int], 10),
        decreases s@.len() - j,
    {
        if j >= s.len() {
            break ;
        }
        if digit_val_x(s[j]) >= 10 {
            break ;
        }
        j = j + 1;
    }
    let ghost ds = s@.subrange(i as int, j as int);
    proof {
        assert(s0 =~= ds + s@.skip(j as int));
        lemma_digits_prefix_of_concat(ds, s@.skip(j as int), 10);
        assert(digits_prefix(s0, 10) == ds);
    }
    let count = j - i;
    if count < 1 || count > 6 {
        return None;
    }
    let mut acc: u64 = 0;
    let mut k: usize = i;
    while k < j
        invariant
            i <= k <= j <= s@.len(),
            j - i <= 6,
            forall|m: int| i <= m < j ==> is_digit(#[trigger] s@[m], 10),
            acc as nat == val_of(s@.subrange(i as int, k as int), 10),
            (acc as nat) < base_pow(10, (k - i) as nat),
        decreases j - k,
    {
        let d = digit_val_x(s[k]);
        proof {
            let part = s@.subrange(i as int, (k + 1) as int);
            assert(part.drop_last() =~= s@.subrange(i as int, k as int));
            assert(part.last() == s@[k as int]);
            let p = base_pow(10, (k - i) as nat);
            assert(base_pow(10, (k + 1 - i) as nat) == 10 * p);
            assert(acc * 10 + d < 10 * p) by (nonlinear_arith)
                requires
                    acc < p,
                    d < 10,
            ;
            assert(p <= 100000) by {
                assert(base_pow(10, 0) == 1);
                assert(base_pow(10, 1) == 10);
                assert(base_pow(10, 2) == 100);
                assert(base_pow(10, 3) == 1000);
                assert(base_pow(10, 4) == 10000);
                assert(base_pow(10, 5) == 100000);
            }
        }
        acc = acc * 10 + d;
        k = k + 1;
    }
    let rem = 6 - count;
    let scale: u64 = if rem == 0 {
        1
    } else if rem == 1 {
        10
    } else if rem == 2 {
        100
    } else if rem == 3 {
        1000
    } else if rem == 4 {
        10000
    } else {
        100000
    };
    proof {
        assert(base_pow(10, 0) == 1);
        assert(base_pow(10, 1) == 10);
        assert(base_pow(10, 2) == 100);
        assert(base_pow(10, 3) == 1000);
        assert(base_pow(10, 4) == 10000);
        assert(base_pow(10, 5) == 100000);
        assert(base_pow(10, 6) == 1000000);
        assert(scale as nat == base_pow(10, rem as nat));
        let pa = base_pow(10, (j - i) as nat);
        let pb = base_pow(10, rem as nat);
        lemma_base_pow_add(10, (j - i) as nat, rem as nat);
        assert(pa * pb == 1000000);
        assert(acc * scale <= (pa - 1) * pb) by (nonlinear_arith)
            requires
                acc < pa,
                scale == pb,
                pb >= 0,
        ;
        assert((pa - 1) * pb == pa * pb - pb) by (nonlinear_arith);
        assert(pb >= 1);
        assert(s@.subrange(i as int, k as int) == ds);
        assert(s0.skip(ds.len() as int) =~= s@.skip(j as int));
    }
    Some((acc * scale, j))
}

/// Reads a coordinate's magnitude at position `i`.
fn parse_coord_mag_x(s: &Vec<char>, i: usize) -> (r: Option<(u64, usize)>)
    requires
        i <= s@.len(),
    ensures
        match r {
            Some(p) => i < p.1 <= s@.len() && p.0 <= 999999999 && parse_coord_mag(
                s@.skip(i as int),
            ) == Some((p.0 as nat, s@.skip(p.1 as int))),
            None => parse_coord_mag(s@.skip(i as int)) is None,
        },
{
    let (ip, j1) = match parse_nat_x(s, i, 10, 999) {
        None => {
            return None;
        },
        Some(p) => p,
    };
    if j1 < s.len() && s[j1] == '.' {
        proof {
            assert(s@.skip(j1 as int)[0] == '.');
            assert(s@.skip(j1 as int).skip(1) =~= s@.skip(j1 + 1));
        }
        let (f, j2) = match parse_frac_x(s, j1 + 1) {
            None => {
                return None;
            },
            Some(p) => p,
        };
        Some((ip * 1000000 + f, j2))
    } else {
        proof {
            if s@.skip(j1 as int).len() > 0 {
                assert(s@.skip(j1 as int)[0] == s@[j1 as int]);
            }
        }
        Some((ip * 1000000, j1))
    }
}

/// Reads a coordinate at position `i`.
fn parse_coordinate_x(s: &Vec<char>, i: usize) -> (r: Option<(Coordinate, usize)>)
    requires
        i <= s@.len(),
    ensures
        match r {
            Some(p) => i < p.1 <= s@.len() && parse_coordinate(s@.skip(i as int)) == Some(
                (p.0, s@.skip(p.1 as int)),
            ),
            None => parse_coordinate(s@.skip(i as int)) is None,
        },
{
    if i < s.len() && s[i] == '-' {
        proof {
            assert(s@.skip(i as int)[0] == '-');
            assert(s@.skip(i as int).skip(1) =~= s@.skip(i + 1));
        }
        match parse_coord_mag_x(s, i + 1) {
            None => None,
            Some((m, j)) => Some((Coordinate { micro_degrees: -(m as i64) }, j)),
        }
    } else {
        proof {
            if s@.skip(i as int).len() > 0 {
                assert(s@.skip(i as int)[0] == s@[i as int]);
            }
        }
        match parse_coord_mag_x(s, i) {
            None => None,
            Some((m, j)) => Some((Coordinate { micro_degrees: m as i64 }, j)),
        }
    }
}

} // verus!

verus! {

/// The single error of deserialization: the payload violates the wire
/// format's structural contract.
#[derive(Clone, Copy, Debug, PartialEq, Eq, Structural)]
pub struct DeserializeError;

/// Reads a port range at position `i`.
fn parse_range_x(s: &Vec<char>, i: usize) -> (r: Option<((u16, u16), usize)>)
    requires
        i <= s@.len(),
    ensures
        match r {
            Some(p) => i < p.1 <= s@.len() && parse_range(s@.skip(i as int)) == Some(
                (p.0.deep_view(), s@.skip(p.1 as int)),
            ),
            None => parse_range(s@.skip(i as int)) is None,
        },
{
    proof {
        reveal(parse_range);
        if s@.skip(i as int).len() > 0 {
            assert(s@.skip(i as int)[0] == s@[i as int]);
        }
    }
    if !(i < s.len() && s[i] == '[') {
        return None;
    }
    proof {
        assert(s@.skip(i as int).skip(1) =~= s@.skip(i + 1));
    }
    let (lo, j1) = match parse_nat_x(s, i + 1, 10, 65535) {
        None => {
            return None;
        },
        Some(p) => p,
    };
    proof {
        if s@.skip(j1 as int).len() > 0 {
            assert(s@.skip(j1 as int)[0] == s@[j1 as int]);
        }
    }
    if !(j1 < s.len() && s[j1] == ',') {
        return None;
    }
    proof {
        assert(s@.skip(j1 as int).skip(1) =~= s@.skip(j1 + 1));
    }
    let (hi, j2) = match parse_nat_x(s, j1 + 1, 10, 65535) {
        None => {
            return None;
        },
        Some(p) => p,
    };
    proof {
        if s@.skip(j2 as int).len() > 0 {
            assert(s@.skip(j2 as int)[0] == s@[j2 as int]);
        }
    }
    if j2 < s.len() && s[j2] == ']' && lo <= hi {
        proof {
            assert(s@.skip(j2 as int).skip(1) =~= s@.skip(j2 + 1));
            assert(((lo as u16, hi as u16)).deep_view() == (lo as u16, hi as u16));
        }
        Some(((lo as u16, hi as u16), j2 + 1))
    } else {
        None
    }
}

/// Reads an OpenVPN descriptor at position `i`.
fn parse_openvpn_x(s: &Vec<char>, i: usize) -> (r: Option<(OpenVpnEndpointData, usize)>)
    requires
        i <= s@.len(),
    ensures
        match r {
            Some(p) => i < p.1 <= s@.len() && parse_openvpn(s@.skip(i as int)) == Some(
                (p.0.deep_view(), s@.skip(p.1 as int)),
            ),
            None => parse_openvpn(s@.skip(i as int)) is None,
        },
{
    proof {
        reveal(parse_openvpn);
    }
    let j1 = match match_lit(s, i, "{\"port\":") {
        None => {
            return None;
        },
        Some(j) => j,
    };
    let (port, j2) = match parse_nat_x(s, j1, 10, 65535) {
        None => {
            return None;
        },
        Some(p) => p,
    };
    let j3 = match match_lit(s, j2, ",\"protocol\":\"") {
        None => {
            return None;
        },
        Some(j) => j,
    };
    let (proto, j4) = match parse_protocol_x(s, j3) {
        None => {
            return None;
        },
        Some(p) => p,
    };
    let j5 = match match_lit(s, j4, "\"}") {
        None => {
            return None;
        },
        Some(j) => j,
    };
    Some((OpenVpnEndpointData { port: port as u16, protocol: proto }, j5))
}

/// Reads a WireGuard descriptor at position `i`.
fn parse_wireguard_x(s: &Vec<char>, i: usize) -> (r: Option<(WireguardEndpointData, usize)>)
    requires
        i <= s@.len(),
    ensures
        match r {
            Some(p) => i < p.1 <= s@.len() && parse_wireguard(s@.skip(i as int)) == Some(
                (p.0.deep_view(), s@.skip(p.1 as int)),
            ),
            None => parse_wireguard(s@.skip(i as int)) is None,
        },
{
    proof {
        reveal(parse_wireguard);
    }
    let j1 = match match_lit(s, i, "{\"port_ranges\":[") {
        None => {
            return None;
        },
        Some(j) => j,
    };
    let (ranges, j2) = match parse_range_list_x(s, j1) {
        None => {
            return None;
        },
        Some(p) => p,
    };
    let j3 = match match_lit(s, j2, ",\"ipv4_gateway\":\"") {
        None => {
            return None;
        },
        Some(j) => j,
    };
    let (g4, j4) = match parse_ipv4_x(s, j3) {
        None => {
            return None;
        },
        Some(p) => p,
    };
    let j5 = match match_lit(s, j4, "\",\"ipv6_gateway\":\"") {
        None => {
            return None;
        },
        Some(j) => j,
    };
    let (g6, j6) = match parse_ipv6_x(s, j5) {
        None => {
            return None;
        },
        Some(p) => p,
    };
    let j7 = match match_lit(s, j6, "\",\"public_key\":") {
        None => {
            return None;
        },
        Some(j) => j,
    };
    let (key, j8) = match parse_string_x(s, j7) {
        None => {
            return None;
        },
        Some(p) => p,
    };
    let j9 = match match_lit(s, j8, "}") {
        None => {
            return None;
        },
        Some(j) => j,
    };
    Some(
        (
            WireguardEndpointData {
                port_ranges: ranges,
                ipv4_gateway: g4,
                ipv6_gateway: g6,
                public_key: key,
            },
            j9,
        ),
    )
}

/// Reads a Shadowsocks descriptor at position `i`.
fn parse_shadowsocks_x(s: &Vec<char>, i: usize) -> (r: Option<(ShadowsocksEndpointData, usize)>)
    requires
        i <= s@.len(),
    ensures
        match r {
            Some(p) => i < p.1 <= s@.len() && parse_shadowsocks(s@.skip(i as int)) == Some(
                (p.0.deep_view(), s@.skip(p.1 as int)),
            ),
            None => parse_shadowsocks(s@.skip(i as int)) is None,
        },
{
    proof {
        reveal(parse_shadowsocks);
    }
    let j1 = match match_lit(s, i, "{\"port\":") {
        None => {
            return None;
        },
        Some(j) => j,
    };
    let (port, j2) = match parse_nat_x(s, j1, 10, 65535) {
        None => {
            return None;
        },
        Some(p) => p,
    };
    let j3 = match match_lit(s, j2, ",\"cipher\":") {
        None => {
            return None;
        },
        Some(j) => j,
    };
    let (cipher, j4) = match parse_string_x(s, j3) {
        None => {
            return None;
        },
        Some(p) => p,
    };
    let j5 = match match_lit(s, j4, ",\"password\":") {
        None => {
            return None;
        },
        Some(j) => j,
    };
    let (password, j6) = match parse_string_x(s, j5) {
        None => {
            return None;
        },
        Some(p) => p,
    };
    let j7 = match match_lit(s, j6, ",\"protocol\":\"") {
        None => {
            return None;
        },
        Some(j) => j,
    };
    let (proto, j8) = match parse_protocol_x(s, j7) {
        None => {
            return None;
        },
        Some(p) => p,
    };
    let j9 = match match_lit(s, j8, "\"}") {
        None => {
            return None;
        },
        Some(j) => j,
    };
    Some(
        (
            ShadowsocksEndpointData { port: port as u16, cipher, password, protocol: proto },
            j9,
        ),
    )
}

} // verus!

verus! {

/// Reads a bracket-closed list of port ranges at position `i` (after the
/// opening bracket).
fn parse_range_list_x(s: &Vec<char>, i: usize) -> (r: Option<(Vec<(u16, u16)>, usize)>)
    requires
        i <= s@.len(),
    ensures
        match r {
            Some(p) => i < p.1 <= s@.len() && parse_list(s@.skip(i as int), f_parse_range()) == Some(
                (p.0.deep_view(), s@.skip(p.1 as int)),
            ),
            None => parse_list(s@.skip(i as int), f_parse_range()) is None,
        },
{
    let ghost s0 = s@.skip(i as int);
    let mut acc: Vec<(u16, u16)> = Vec::new();
    if i < s.len() && s[i] == ']' {
        proof {
            assert(s0[0] == ']');
            assert(s0.skip(1) =~= s@.skip(i + 1));
            assert(acc.deep_view() =~= Seq::<(u16, u16)>::empty());
        }
        return Some((acc, i + 1));
    }
    proof {
        if s0.len() > 0 {
            assert(s0[0] == s@[i as int]);
        }
    }
    let (v0, p0) = match parse_range_x(s, i) {
        None => {
            return None;
        },
        Some(p) => p,
    };
    acc.push(v0);
    let mut pos: usize = p0;
    proof {
        assert(acc.deep_view() =~= seq![v0.deep_view()]);
    }
    loop
        invariant
            i < pos <= s@.len(),
            s0 == s@.skip(i as int),
            ({
                match parse_list_more(s@.skip(pos as int), f_parse_range()) {
                    Some(q) => parse_list(s0, f_parse_range()) == Some((acc.deep_view() + q.0, q.1)),
                    None => parse_list(s0, f_parse_range()) is None,
                }
            }),
        decreases s@.len() - pos,
    {
        if pos < s.len() && s[pos] == ']' {
            proof {
                assert(s@.skip(pos as int)[0] == ']');
                assert(s@.skip(pos as int).skip(1) =~= s@.skip(pos + 1));
                assert(acc.deep_view() + Seq::<(u16, u16)>::empty() =~= acc.deep_view());
            }
            return Some((acc, pos + 1));
        }
        if pos < s.len() && s[pos] == ',' {
            proof {
                assert(s@.skip(pos as int)[0] == ',');
                assert(s@.skip(pos as int).skip(1) =~= s@.skip(pos + 1));
            }
            let (v, j) = match parse_range_x(s, pos + 1) {
                None => {
                    return None;
                },
                Some(p) => p,
            };
            let ghost old_dv = acc.deep_view();
            proof {
                if parse_list_more(s@.skip(j as int), f_parse_range()) is Some {
                    let q = parse_list_more(s@.skip(j as int), f_parse_range())->Some_0;
                    assert(parse_list_more(s@.skip(pos as int), f_parse_range()) == Some(
                        (seq![v.deep_view()] + q.0, q.1),
                    ));
                    assert(old_dv + (seq![v.deep_view()] + q.0) =~= old_dv.push(v.deep_view())
                        + q.0);
                }
            }
            acc.push(v);
            pos = j;
            proof {
                assert(acc.deep_view() =~= old_dv.push(v.deep_view()));
            }
        } else {
            proof {
                if s@.skip(pos as int).len() > 0 {
                    assert(s@.skip(pos as int)[0] == s@[pos as int]);
                }
            }
            return None;
        }
    }
}


/// Reads a bracket-closed list of OpenVPN descriptors at position `i` (after the
/// opening bracket).
fn parse_openvpn_list_x(s: &Vec<char>, i: usize) -> (r: Option<(Vec<OpenVpnEndpointData>, usize)>)
    requires
        i <= s@.len(),
    ensures
        match r {
            Some(p) => i < p.1 <= s@.len() && parse_list(s@.skip(i as int), f_parse_openvpn()) == Some(
                (p.0.deep_view(), s@.skip(p.1 as int)),
            ),
            None => parse_list(s@.skip(i as int), f_parse_openvpn()) is None,
        },
{
    let ghost s0 = s@.skip(i as int);
    let mut acc: Vec<OpenVpnEndpointData> = Vec::new();
    if i < s.len() && s[i] == ']' {
        proof {
            assert(s0[0] == ']');
            assert(s0.skip(1) =~= s@.skip(i + 1));
            assert(acc.deep_view() =~= Seq::<OpenVpnEndpointData>::empty());
        }
        return Some((acc, i + 1));
    }
    proof {
        if s0.len() > 0 {
            assert(s0[0] == s@[i as int]);
        }
    }
    let (v0, p0) = match parse_openvpn_x(s, i) {
        None => {
            return None;
        },
        Some(p) => p,
    };
    acc.push(v0);
    let mut pos: usize = p0;
    proof {
        assert(acc.deep_view() =~= seq![v0.deep_view()]);
    }
    loop
        invariant
            i < pos <= s@.len(),
            s0 == s@.skip(i as int),
            ({
                match parse_list_more(s@.skip(pos as int), f_parse_openvpn()) {
                    Some(q) => parse_list(s0, f_parse_openvpn()) == Some((acc.deep_view() + q.0, q.1)),
                    None => parse_list(s0, f_parse_openvpn()) is None,
                }
            }),
        decreases s@.len() - pos,
    {
        if pos < s.len() && s[pos] == ']' {
            proof {
                assert(s@.skip(pos as int)[0] == ']');
                assert(s@.skip(pos as int).skip(1) =~= s@.skip(pos + 1));
                assert(acc.deep_view() + Seq::<OpenVpnEndpointData>::empty() =~= acc.deep_view());
            }
            return Some((acc, pos + 1));
        }
        if pos < s.len() && s[pos] == ',' {
            proof {
                assert(s@.skip(pos as int)[0] == ',');
                assert(s@.skip(pos as int).skip(1) =~= s@.skip(pos + 1));
            }
            let (v, j) = match parse_openvpn_x(s, pos + 1) {
                None => {
                    return None;
                },
                Some(p) => p,
            };
            let ghost old_dv = acc.deep_view();
            proof {
                if parse_list_more(s@.skip(j as int), f_parse_openvpn()) is Some {
                    let q = parse_list_more(s@.skip(j as int), f_parse_openvpn())->Some_0;
                    assert(parse_list_more(s@.skip(pos as int), f_parse_openvpn()) == Some(
                        (seq![v.deep_view()] + q.0, q.1),
                    ));
                    assert(old_dv + (seq![v.deep_view()] + q.0) =~= old_dv.push(v.deep_view())
                        + q.0);
                }
            }
            acc.push(v);
            pos = j;
            proof {
                assert(acc.deep_view() =~= old_dv.push(v.deep_view()));
            }
        } else {
            proof {
                if s@.skip(pos as int).len() > 0 {
                    assert(s@.skip(pos as int)[0] == s@[pos as int]);
                }
            }
            return None;
        }
    }
}


/// Reads a bracket-closed list of WireGuard descriptors at position `i` (after the
/// opening bracket).
fn parse_wireguard_list_x(s: &Vec<char>, i: usize) -> (r: Option<(Vec<WireguardEndpointData>, usize)>)
    requires
        i <= s@.len(),
    ensures
        match r {
            Some(p) => i < p.1 <= s@.len() && parse_list(s@.skip(i as int), f_parse_wireguard()) == Some(
                (p.0.deep_view(), s@.skip(p.1 as int)),
            ),
            None => parse_list(s@.skip(i as int), f_parse_wireguard()) is None,
        },
{
    let ghost s0 = s@.skip(i as int);
    let mut acc: Vec<WireguardEndpointData> = Vec::new();
    if i < s.len() && s[i] == ']' {
        proof {
            assert(s0[0] == ']');
            assert(s0.skip(1) =~= s@.skip(i + 1));
            assert(acc.deep_view() =~= Seq::<WireguardEndpointDataView>::empty());
        }
        return Some((acc, i + 1));
    }
    proof {
        if s0.len() > 0 {
            assert(s0[0] == s@[i as int]);
        }
    }
    let (v0, p0) = match parse_wireguard_x(s, i) {
        None => {
            return None;
        },
        Some(p) => p,
    };
    acc.push(v0);
    let mut pos: usize = p0;
    proof {
        assert(acc.deep_view() =~= seq![v0.deep_view()]);
    }
    loop
        invariant
            i < pos <= s@.len(),
            s0 == s@.skip(i as int),
            ({
                match parse_list_more(s@.skip(pos as int), f_parse_wireguard()) {
                    Some(q) => parse_list(s0, f_parse_wireguard()) == Some((acc.deep_view() + q.0, q.1)),
                    None => parse_list(s0, f_parse_wireguard()) is None,
                }
            }),
        decreases s@.len() - pos,
    {
        if pos < s.len() && s[pos] == ']' {
            proof {
                assert(s@.skip(pos as int)[0] == ']');
                assert(s@.skip(pos as int).skip(1) =~= s@.skip(pos + 1));
                assert(acc.deep_view() + Seq::<WireguardEndpointDataView>::empty() =~= acc.deep_view());
            }
            return Some((acc, pos + 1));
        }
        if pos < s.len() && s[pos] == ',' {
            proof {
                assert(s@.skip(pos as int)[0] == ',');
                assert(s@.skip(pos as int).skip(1) =~= s@.skip(pos + 1));
            }
            let (v, j) = match parse_wireguard_x(s, pos + 1) {
                None => {
                    return None;
                },
                Some(p) => p,
            };
            let ghost old_dv = acc.deep_view();
            proof {
                if parse_list_more(s@.skip(j as int), f_parse_wireguard()) is Some {
                    let q = parse_list_more(s@.skip(j as int), f_parse_wireguard())->Some_0;
                    assert(parse_list_more(s@.skip(pos as int), f_parse_wireguard()) == Some(
                        (seq![v.deep_view()] + q.0, q.1),
                    ));
                    assert(old_dv + (seq![v.deep_view()] + q.0) =~= old_dv.push(v.deep_view())
                        + q.0);
                }
            }
            acc.push(v);
            pos = j;
            proof {
                assert(acc.deep_view() =~= old_dv.push(v.deep_view()));
            }
        } else {
            proof {
                if s@.skip(pos as int).len() > 0 {
                    assert(s@.skip(pos as int)[0] == s@[pos as int]);
                }
            }
            return None;
        }
    }
}


/// Reads a bracket-closed list of Shadowsocks descriptors at position `i` (after the
/// opening bracket).
fn parse_shadowsocks_list_x(s: &Vec<char>, i: usize) -> (r: Option<(Vec<ShadowsocksEndpointData>, usize)>)
    requires
        i <= s@.len(),
    ensures
        match r {
            Some(p) => i < p.1 <= s@.len() && parse_list(s@.skip(i as int), f_parse_shadowsocks()) == Some(
                (p.0.deep_view(), s@.skip(p.1 as int)),
            ),
            None => parse_list(s@.skip(i as int), f_parse_shadowsocks()) is None,
        },
{
    let ghost s0 = s@.skip(i as int);
    let mut acc: Vec<ShadowsocksEndpointData> = Vec::new();
    if i < s.len() && s[i] == ']' {
        proof {
            assert(s0[0] == ']');
            assert(s0.skip(1) =~= s@.skip(i + 1));
            assert(acc.deep_view() =~= Seq::<ShadowsocksEndpointDataView>::empty());
        }
        return Some((acc, i + 1));
    }
    proof {
        if s0.len() > 0 {
            assert(s0[0] == s@[i as int]);
        }
    }
    let (v0, p0) = match parse_shadowsocks_x(s, i) {
        None => {
            return None;
        },
        Some(p) => p,
    };
    acc.push(v0);
    let mut pos: usize = p0;
    proof {
        assert(acc.deep_view() =~= seq![v0.deep_view()]);
    }
    loop
        invariant
            i < pos <= s@.len(),
            s0 == s@.skip(i as int),
            ({
                match parse_list_more(s@.skip(pos as int), f_parse_shadowsocks()) {
                    Some(q) => parse_list(s0, f_parse_shadowsocks()) == Some((acc.deep_view() + q.0, q.1)),
                    None => parse_list(s0, f_parse_shadowsocks()) is None,
                }
            }),
        decreases s@.len() - pos,
    {
        if pos < s.len() && s[pos] == ']' {
            proof {
                assert(s@.skip(pos as int)[0] == ']');
                assert(s@.skip(pos as int).skip(1) =~= s@.skip(pos + 1));
                assert(acc.deep_view() + Seq::<ShadowsocksEndpointDataView>::empty() =~= acc.deep_view());
            }
            return Some((acc, pos + 1));
        }
        if pos < s.len() && s[pos] == ',' {
            proof {
                assert(s@.skip(pos as int)[0] == ',');
                assert(s@.skip(pos as int).skip(1) =~= s@.skip(pos + 1));
            }
            let (v, j) = match parse_shadowsocks_x(s, pos + 1) {
                None => {
                    return None;
                },
                Some(p) => p,
            };
            let ghost old_dv = acc.deep_view();
            proof {
                if parse_list_more(s@.skip(j as int), f_parse_shadowsocks()) is Some {
                    let q = parse_list_more(s@.skip(j as int), f_parse_shadowsocks())->Some_0;
                    assert(parse_list_more(s@.skip(pos as int), f_parse_shadowsocks()) == Some(
                        (seq![v.deep_view()] + q.0, q.1),
                    ));
                    assert(old_dv + (seq![v.deep_view()] + q.0) =~= old_dv.push(v.deep_view())
                        + q.0);
                }
            }
            acc.push(v);
            pos = j;
            proof {
                assert(acc.deep_view() =~= old_dv.push(v.deep_view()));
            }
        } else {
            proof {
                if s@.skip(pos as int).len() > 0 {
                    assert(s@.skip(pos as int)[0] == s@[pos as int]);
                }
            }
            return None;
        }
    }
}


/// Reads a bracket-closed list of relays at position `i` (after the
/// opening bracket).
fn parse_relay_list_x(s: &Vec<char>, i: usize) -> (r: Option<(Vec<Relay>, usize)>)
    requires
        i <= s@.len(),
    ensures
        match r {
            Some(p) => i < p.1 <= s@.len() && parse_list(s@.skip(i as int), f_parse_relay()) == Some(
                (p.0.deep_view(), s@.skip(p.1 as int)),
            ),
            None => parse_list(s@.skip(i as int), f_parse_relay()) is None,
        },
{
    let ghost s0 = s@.skip(i as int);
    let mut acc: Vec<Relay> = Vec::new();
    if i < s.len() && s[i] == ']' {
        proof {
            assert(s0[0] == ']');
            assert(s0.skip(1) =~= s@.skip(i + 1));
            assert(acc.deep_view() =~= Seq::<RelayView>::empty());
        }
        return Some((acc, i + 1));
    }
    proof {
        if s0.len() > 0 {
            assert(s0[0] == s@[i as int]);
        }
    }
    let (v0, p0) = match parse_relay_x(s, i) {
        None => {
            return None;
        },
        Some(p) => p,
    };
    acc.push(v0);
    let mut pos: usize = p0;
    proof {
        assert(acc.deep_view() =~= seq![v0.deep_view()]);
    }
    loop
        invariant
            i < pos <= s@.len(),
            s0 == s@.skip(i as int),
            ({
                match parse_list_more(s@.skip(pos as int), f_parse_relay()) {
                    Some(q) => parse_list(s0, f_parse_relay()) == Some((acc.deep_view() + q.0, q.1)),
                    None => parse_list(s0, f_parse_relay()) is None,
                }
            }),
        decreases s@.len() - pos,
    {
        if pos < s.len() && s[pos] == ']' {
            proof {
                assert(s@.skip(pos as int)[0] == ']');
                assert(s@.skip(pos as int).skip(1) =~= s@.skip(pos + 1));
                assert(acc.deep_view() + Seq::<RelayView>::empty() =~= acc.deep_view());
            }
            return Some((acc, pos + 1));
        }
        if pos < s.len() && s[pos] == ',' {
            proof {
                assert(s@.skip(pos as int)[0] == ',');
                assert(s@.skip(pos as int).skip(1) =~= s@.skip(pos + 1));
            }
            let (v, j) = match parse_relay_x(s, pos + 1) {
                None => {
                    return None;
                },
                Some(p) => p,
            };
            let ghost old_dv = acc.deep_view();
            proof {
                if parse_list_more(s@.skip(j as int), f_parse_relay()) is Some {
                    let q = parse_list_more(s@.skip(j as int), f_parse_relay())->Some_0;
                    assert(parse_list_more(s@.skip(pos as int), f_parse_relay()) == Some(
                        (seq![v.deep_view()] + q.0, q.1),
                    ));
                    assert(old_dv + (seq![v.deep_view()] + q.0) =~= old_dv.push(v.deep_view())
                        + q.0);
                }
            }
            acc.push(v);
            pos = j;
            proof {
                assert(acc.deep_view() =~= old_dv.push(v.deep_view()));
            }
        } else {
            proof {
                if s@.skip(pos as int).len() > 0 {
                    assert(s@.skip(pos as int)[0] == s@[pos as int]);
                }
            }
            return None;
        }
    }
}


/// Reads a bracket-closed list of cities at position `i` (after the
/// opening bracket).
fn parse_city_list_x(s: &Vec<char>, i: usize) -> (r: Option<(Vec<RelayListCity>, usize)>)
    requires
        i <= s@.len(),
    ensures
        match r {
            Some(p) => i < p.1 <= s@.len() && parse_list(s@.skip(i as int), f_parse_city()) == Some(
                (p.0.deep_view(), s@.skip(p.1 as int)),
            ),
            None => parse_list(s@.skip(i as int), f_parse_city()) is None,
        },
{
    let ghost s0 = s@.skip(i as int);
    let mut acc: Vec<RelayListCity> = Vec::new();
    if i < s.len() && s[i] == ']' {
        proof {
            assert(s0[0] == ']');
            assert(s0.skip(1) =~= s@.skip(i + 1));
            assert(acc.deep_view() =~= Seq::<RelayListCityView>::empty());
        }
        return Some((acc, i + 1));
    }
    proof {
        if s0.len() > 0 {
            assert(s0[0] == s@[i as int]);
        }
    }
    let (v0, p0) = match parse_city_x(s, i) {
        None => {
            return None;
        },
        Some(p) => p,
    };
    acc.push(v0);
    let mut pos: usize = p0;
    proof {
        assert(acc.deep_view() =~= seq![v0.deep_view()]);
    }
    loop
        invariant
            i < pos <= s@.len(),
            s0 == s@.skip(i as int),
            ({
                match parse_list_more(s@.skip(pos as int), f_parse_city()) {
                    Some(q) => parse_list(s0, f_parse_city()) == Some((acc.deep_view() + q.0, q.1)),
                    None => parse_list(s0, f_parse_city()) is None,
                }
            }),
        decreases s@.len() - pos,
    {
        if pos < s.len() && s[pos] == ']' {
            proof {
                assert(s@.skip(pos as int)[0] == ']');
                assert(s@.skip(pos as int).skip(1) =~= s@.skip(pos + 1));
                assert(acc.deep_view() + Seq::<RelayListCityView>::empty() =~= acc.deep_view());
            }
            return Some((acc, pos + 1));
        }
        if pos < s.len() && s[pos] == ',' {
            proof {
                assert(s@.skip(pos as int)[0] == ',');
                assert(s@.skip(pos as int).skip(1) =~= s@.skip(pos + 1));
            }
            let (v, j) = match parse_city_x(s, pos + 1) {
                None => {
                    return None;
                },
                Some(p) => p,
            };
            let ghost old_dv = acc.deep_view();
            proof {
                if parse_list_more(s@.skip(j as int), f_parse_city()) is Some {
                    let q = parse_list_more(s@.skip(j as int), f_parse_city())->Some_0;
                    assert(parse_list_more(s@.skip(pos as int), f_parse_city()) == Some(
                        (seq![v.deep_view()] + q.0, q.1),
                    ));
                    assert(old_dv + (seq![v.deep_view()] + q.0) =~= old_dv.push(v.deep_view())
                        + q.0);
                }
            }
            acc.push(v);
            pos = j;
            proof {
                assert(acc.deep_view() =~= old_dv.push(v.deep_view()));
            }
        } else {
            proof {
                if s@.skip(pos as int).len() > 0 {
                    assert(s@.skip(pos as int)[0] == s@[pos as int]);
                }
            }
            return None;
        }
    }
}


/// Reads a bracket-closed list of countries at position `i` (after the
/// opening bracket).
fn parse_country_list_x(s: &Vec<char>, i: usize) -> (r: Option<(Vec<RelayListCountry>, usize)>)
    requires
        i <= s@.len(),
    ensures
        match r {
            Some(p) => i < p.1 <= s@.len() && parse_list(s@.skip(i as int), f_parse_country()) == Some(
                (p.0.deep_view(), s@.skip(p.1 as int)),
            ),
            None => parse_list(s@.skip(i as int), f_parse_country()) is None,
        },
{
    let ghost s0 = s@.skip(i as int);
    let mut acc: Vec<RelayListCountry> = Vec::new();
    if i < s.len() && s[i] == ']' {
        proof {
            assert(s0[0] == ']');
            assert(s0.skip(1) =~= s@.skip(i + 1));
            assert(acc.deep_view() =~= Seq::<RelayListCountryView>::empty());
        }
        return Some((acc, i + 1));
    }
    proof {
        if s0.len() > 0 {
            assert(s0[0] == s@[i as int]);
        }
    }
    let (v0, p0) = match parse_country_x(s, i) {
        None => {
            return None;
        },
        Some(p) => p,
    };
    acc.push(v0);
    let mut pos: usize = p0;
    proof {
        assert(acc.deep_view() =~= seq![v0.deep_view()]);
    }
    loop
        invariant
            i < pos <= s@.len(),
            s0 == s@.skip(i as int),
            ({
                match parse_list_more(s@.skip(pos as int), f_parse_country()) {
                    Some(q) => parse_list(s0, f_parse_country()) == Some((acc.deep_view() + q.0, q.1)),
                    None => parse_list(s0, f_parse_country()) is None,
                }
            }),
        decreases s@.len() - pos,
    {
        if pos < s.len() && s[pos] == ']' {
            proof {
                assert(s@.skip(pos as int)[0] == ']');
                assert(s@.skip(pos as int).skip(1) =~= s@.skip(pos + 1));
                assert(acc.deep_view() + Seq::<RelayListCountryView>::empty() =~= acc.deep_view());
            }
            return Some((acc, pos + 1));
        }
        if pos < s.len() && s[pos] == ',' {
            proof {
                assert(s@.skip(pos as int)[0] == ',');
                assert(s@.skip(pos as int).skip(1) =~= s@.skip(pos + 1));
            }
            let (v, j) = match parse_country_x(s, pos + 1) {
                None => {
                    return None;
                },
                Some(p) => p,
            };
            let ghost old_dv = acc.deep_view();
            proof {
                if parse_list_more(s@.skip(j as int), f_parse_country()) is Some {
                    let q = parse_list_more(s@.skip(j as int), f_parse_country())->Some_0;
                    assert(parse_list_more(s@.skip(pos as int), f_parse_country()) == Some(
                        (seq![v.deep_view()] + q.0, q.1),
                    ));
                    assert(old_dv + (seq![v.deep_view()] + q.0) =~= old_dv.push(v.deep_view())
                        + q.0);
                }
            }
            acc.push(v);
            pos = j;
            proof {
                assert(acc.deep_view() =~= old_dv.push(v.deep_view()));
            }
        } else {
            proof {
                if s@.skip(pos as int).len() > 0 {
                    assert(s@.skip(pos as int)[0] == s@[pos as int]);
                }
            }
            return None;
        }
    }
}

/// Reads a relay's tunnel sets at position `i`.
fn parse_tunnels_x(s: &Vec<char>, i: usize) -> (r: Option<(RelayTunnels, usize)>)
    requires
        i <= s@.len(),
    ensures
        match r {
            Some(p) => i < p.1 <= s@.len() && parse_tunnels(s@.skip(i as int)) == Some(
                (p.0.deep_view(), s@.skip(p.1 as int)),
            ),
            None => parse_tunnels(s@.skip(i as int)) is None,
        },
{
    proof {
        reveal(parse_tunnels);
    }
    let j1 = match match_lit(s, i, "{\"openvpn\":[") {
        None => {
            return None;
        },
        Some(j) => j,
    };
    let (ovs, j2) = match parse_openvpn_list_x(s, j1) {
        None => {
            return None;
        },
        Some(p) => p,
    };
    let j3 = match match_lit(s, j2, ",\"wireguard\":[") {
        None => {
            return None;
        },
        Some(j) => j,
    };
    let (wgs, j4) = match parse_wireguard_list_x(s, j3) {
        None => {
            return None;
        },
        Some(p) => p,
    };
    let j5 = match match_lit(s, j4, "}") {
        None => {
            return None;
        },
        Some(j) => j,
    };
    Some((RelayTunnels { openvpn: ovs, wireguard: wgs }, j5))
}

/// Reads a relay's bridge set at position `i`.
fn parse_bridges_x(s: &Vec<char>, i: usize) -> (r: Option<(RelayBridges, usize)>)
    requires
        i <= s@.len(),
    ensures
        match r {
            Some(p) => i < p.1 <= s@.len() && parse_bridges(s@.skip(i as int)) == Some(
                (p.0.deep_view(), s@.skip(p.1 as int)),
            ),
            None => parse_bridges(s@.skip(i as int)) is None,
        },
{
    proof {
        reveal(parse_bridges);
    }
    let j1 = match match_lit(s, i, "{\"shadowsocks\":[") {
        None => {
            return None;
        },
        Some(j) => j,
    };
    let (sss, j2) = match parse_shadowsocks_list_x(s, j1) {
        None => {
            return None;
        },
        Some(p) => p,
    };
    let j3 = match match_lit(s, j2, "}") {
        None => {
            return None;
        },
        Some(j) => j,
    };
    Some((RelayBridges { shadowsocks: sss }, j3))
}

/// Reads a relay at position `i`.
#[verifier::rlimit(100)]
#[verifier::spinoff_prover]
fn parse_relay_x(s: &Vec<char>, i: usize) -> (r: Option<(Relay, usize)>)
    requires
        i <= s@.len(),
    ensures
        match r {
            Some(p) => i < p.1 <= s@.len() && parse_relay(s@.skip(i as int)) == Some(
                (p.0.deep_view(), s@.skip(p.1 as int)),
            ),
            None => parse_relay(s@.skip(i as int)) is None,
        },
{
    proof {
        reveal(parse_relay);
        reveal(parse_relay_opts);
    }
    let j1 = match match_lit(s, i, "{\"hostname\":") {
        None => {
            return None;
        },
        Some(j) => j,
    };
    let (hostname, j2) = match parse_string_x(s, j1) {
        None => {
            return None;
        },
        Some(p) => p,
    };
    let j3 = match match_lit(s, j2, ",\"ipv4_addr_in\":\"") {
        None => {
            return None;
        },
        Some(j) => j,
    };
    let (ip, j4) = match parse_ipv4_x(s, j3) {
        None => {
            return None;
        },
        Some(p) => p,
    };
    let j5 = match match_lit(s, j4, "\",\"include_in_country\":") {
        None => {
            return None;
        },
        Some(j) => j,
    };
    let (inc, j6) = match parse_bool_x(s, j5) {
        None => {
            return None;
        },
        Some(p) => p,
    };
    let j7 = match match_lit(s, j6, ",\"weight\":") {
        None => {
            return None;
        },
        Some(j) => j,
    };
    let (w, j8) = match parse_nat_x(s, j7, 10, 18446744073709551615) {
        None => {
            return None;
        },
        Some(p) => p,
    };
    let (tunnels, bridges, j9) = match match_lit(s, j8, ",\"tunnels\":") {
        Some(k1) => {
            let (t, k2) = match parse_tunnels_x(s, k1) {
                None => {
                    return None;
                },
                Some(p) => p,
            };
            match match_lit(s, k2, ",\"bridges\":") {
                Some(k3) => {
                    let (b, k4) = match parse_bridges_x(s, k3) {
                        None => {
                            return None;
                        },
                        Some(p) => p,
                    };
                    proof {
                        if s@.skip(k4 as int).len() > 0 {
                            assert(s@.skip(k4 as int)[0] == s@[k4 as int]);
                        }
                    }
                    if k4 < s.len() && s[k4] == '}' {
                        proof {
                            assert(s@.skip(k4 as int).skip(1) =~= s@.skip(k4 + 1));
                        }
                        (t, b, k4 + 1)
                    } else {
                        return None;
                    }
                },
                None => {
                    proof {
                        if s@.skip(k2 as int).len() > 0 {
                            assert(s@.skip(k2 as int)[0] == s@[k2 as int]);
                        }
                    }
                    if k2 < s.len() && s[k2] == '}' {
                        let b = RelayBridges { shadowsocks: Vec::new() };
                        proof {
                            assert(s@.skip(k2 as int).skip(1) =~= s@.skip(k2 + 1));
                            assert(b.deep_view().shadowsocks =~= empty_bridges().shadowsocks);
                            assert(b.deep_view() == empty_bridges());
                        }
                        (t, b, k2 + 1)
                    } else {
                        return None;
                    }
                },
            }
        },
        None => {
            match match_lit(s, j8, ",\"bridges\":") {
                Some(k1) => {
                    let (b, k2) = match parse_bridges_x(s, k1) {
                        None => {
                            return None;
                        },
                        Some(p) => p,
                    };
                    proof {
                        if s@.skip(k2 as int).len() > 0 {
                            assert(s@.skip(k2 as int)[0] == s@[k2 as int]);
                        }
                    }
                    if k2 < s.len() && s[k2] == '}' {
                        let t = RelayTunnels { openvpn: Vec::new(), wireguard: Vec::new() };
                        proof {
                            assert(s@.skip(k2 as int).skip(1) =~= s@.skip(k2 + 1));
                            assert(t.deep_view().openvpn =~= empty_tunnels().openvpn);
                            assert(t.deep_view().wireguard =~= empty_tunnels().wireguard);
                            assert(t.deep_view() == empty_tunnels());
                        }
                        (t, b, k2 + 1)
                    } else {
                        return None;
                    }
                },
                None => {
                    proof {
                        if s@.skip(j8 as int).len() > 0 {
                            assert(s@.skip(j8 as int)[0] == s@[j8 as int]);
                        }
                    }
                    if j8 < s.len() && s[j8] == '}' {
                        let t = RelayTunnels { openvpn: Vec::new(), wireguard: Vec::new() };
                        let b = RelayBridges { shadowsocks: Vec::new() };
                        proof {
                            assert(s@.skip(j8 as int).skip(1) =~= s@.skip(j8 + 1));
                            assert(t.deep_view().openvpn =~= empty_tunnels().openvpn);
                            assert(t.deep_view().wireguard =~= empty_tunnels().wireguard);
                            assert(t.deep_view() == empty_tunnels());
                            assert(b.deep_view().shadowsocks =~= empty_bridges().shadowsocks);
                            assert(b.deep_view() == empty_bridges());
                        }
                        (t, b, j8 + 1)
                    } else {
                        return None;
                    }
                },
            }
        },
    };
    Some(
        (
            Relay {
                hostname,
                ipv4_addr_in: ip,
                include_in_country: inc,
                weight: w,
                tunnels,
                bridges,
                location: None,
            },
            j9,
        ),
    )
}

/// Reads a city at position `i`.
#[verifier::rlimit(100)]
#[verifier::spinoff_prover]
fn parse_city_x(s: &Vec<char>, i: usize) -> (r: Option<(RelayListCity, usize)>)
    requires
        i <= s@.len(),
    ensures
        match r {
            Some(p) => i < p.1 <= s@.len() && parse_city(s@.skip(i as int)) == Some(
                (p.0.deep_view(), s@.skip(p.1 as int)),
            ),
            None => parse_city(s@.skip(i as int)) is None,
        },
{
    proof {
        reveal(parse_city);
    }
    let j1 = match match_lit(s, i, "{\"name\":") {
        None => {
            return None;
        },
        Some(j) => j,
    };
    let (name, j2) = match parse_string_x(s, j1) {
        None => {
            return None;
        },
        Some(p) => p,
    };
    let j3 = match match_lit(s, j2, ",\"code\":") {
        None => {
            return None;
        },
        Some(j) => j,
    };
    let (code, j4) = match parse_string_x(s, j3) {
        None => {
            return None;
        },
        Some(p) => p,
    };
    let j5 = match match_lit(s, j4, ",\"latitude\":") {
        None => {
            return None;
        },
        Some(j) => j,
    };
    let (lat, j6) = match parse_coordinate_x(s, j5) {
        None => {
            return None;
        },
        Some(p) => p,
    };
    let j7 = match match_lit(s, j6, ",\"longitude\":") {
        None => {
            return None;
        },
        Some(j) => j,
    };
    let (lon, j8) = match parse_coordinate_x(s, j7) {
        None => {
            return None;
        },
        Some(p) => p,
    };
    let j9 = match match_lit(s, j8, ",\"relays\":[") {
        None => {
            return None;
        },
        Some(j) => j,
    };
    let (relays, j10) = match parse_relay_list_x(s, j9) {
        None => {
            return None;
        },
        Some(p) => p,
    };
    let j11 = match match_lit(s, j10, "}") {
        None => {
            return None;
        },
        Some(j) => j,
    };
    Some(
        (RelayListCity { name, code, latitude: lat, longitude: lon, relays }, j11),
    )
}

/// Reads a country at position `i`.
fn parse_country_x(s: &Vec<char>, i: usize) -> (r: Option<(RelayListCountry, usize)>)
    requires
        i <= s@.len(),
    ensures
        match r {
            Some(p) => i < p.1 <= s@.len() && parse_country(s@.skip(i as int)) == Some(
                (p.0.deep_view(), s@.skip(p.1 as int)),
            ),
            None => parse_country(s@.skip(i as int)) is None,
        },
{
    proof {
        reveal(parse_country);
    }
    let j1 = match match_lit(s, i, "{\"name\":") {
        None => {
            return None;
        },
        Some(j) => j,
    };
    let (name, j2) = match parse_string_x(s, j1) {
        None => {
            return None;
        },
        Some(p) => p,
    };
    let j3 = match match_lit(s, j2, ",\"code\":") {
        None => {
            return None;
        },
        Some(j) => j,
    };
    let (code, j4) = match parse_string_x(s, j3) {
        None => {
            return None;
        },
        Some(p) => p,
    };
    let j5 = match match_lit(s, j4, ",\"cities\":[") {
        None => {
            return None;
        },
        Some(j) => j,
    };
    let (cities, j6) = match parse_city_list_x(s, j5) {
        None => {
            return None;
        },
        Some(p) => p,
    };
    let j7 = match match_lit(s, j6, "}") {
        None => {
            return None;
        },
        Some(j) => j,
    };
    Some((RelayListCountry { name, code, cities }, j7))
}

/// Reads a whole catalog at position `i`.
fn parse_catalog_x(s: &Vec<char>, i: usize) -> (r: Option<(RelayList, usize)>)
    requires
        i <= s@.len(),
    ensures
        match r {
            Some(p) => i < p.1 <= s@.len() && parse_catalog(s@.skip(i as int)) == Some(
                (p.0.deep_view(), s@.skip(p.1 as int)),
            ),
            None => parse_catalog(s@.skip(i as int)) is None,
        },
{
    proof {
        reveal(parse_catalog);
    }
    let j1 = match match_lit(s, i, "{\"countries\":[") {
        None => {
            return None;
        },
        Some(j) => j,
    };
    let (countries, j2) = match parse_country_list_x(s, j1) {
        None => {
            return None;
        },
        Some(p) => p,
    };
    let j3 = match match_lit(s, j2, "}") {
        None => {
            return None;
        },
        Some(j) => j,
    };
    Some((RelayList { countries }, j3))
}

impl RelayList {
    /// Reads a catalog from its wire payload. Returns the catalog exactly
    /// when the whole payload is a well-formed catalog — all-or-nothing —
    /// and an error exactly when the payload is malformed or has trailing
    /// text. A returned catalog is valid: its WireGuard port ranges are
    /// ordered and no relay carries a location.
    pub fn deserialize(payload: &str) -> (r: Result<RelayList, DeserializeError>)
        ensures
            match r {
                Ok(l) => parse_catalog(payload@) == Some((l.deep_view(), Seq::<char>::empty()))
                    && l.deep_view().is_valid(),
                Err(_) => parse_catalog(payload@) is None || parse_catalog(
                    payload@,
                )->Some_0.1.len() != 0,
            },
    {
        let chars = str_to_chars(payload);
        proof {
            assert(chars@.skip(0) =~= payload@);
        }
        match parse_catalog_x(&chars, 0) {
            None => Err(DeserializeError),
            Some((l, j)) => {
                if j == chars.len() {
                    proof {
                        assert(chars@.skip(j as int) =~= Seq::<char>::empty());
                        crate::wire::lemma_parse_catalog_valid(payload@);
                    }
                    Ok(l)
                } else {
                    proof {
                        assert(chars@.skip(j as int).len() != 0);
                    }
                    Err(DeserializeError)
                }
            },
        }
    }
}

} // verus!

verus! {

/// Appends one port range in its diagnostic form to `out`.
fn write_display_range(out: &mut Vec<char>, r: (u16, u16))
    ensures
        final(out)@ == old(out)@ + crate::wire::display_range(r),
{
    out.push('[');
    write_numeral(out, r.0 as u64, 10);
    push_lit(out, " - ");
    write_numeral(out, r.1 as u64, 10);
    out.push(']');
    proof {
        assert(out@ =~= old(out)@ + crate::wire::display_range(r));
    }
}

impl OpenVpnEndpointData {
    /// The deterministic single-line diagnostic form of this descriptor:
    /// the protocol name and the port.
    pub fn display_string(&self) -> (r: String)
        ensures
            r@ == crate::wire::display_openvpn(self.deep_view()),
    {
        let mut out: Vec<char> = Vec::new();
        write_protocol(&mut out, self.protocol);
        push_lit(&mut out, " port ");
        write_numeral(&mut out, self.port as u64, 10);
        proof {
            assert(out@ =~= crate::wire::display_openvpn(self.deep_view()));
        }
        chars_to_string(out)
    }
}

impl WireguardEndpointData {
    /// The deterministic single-line diagnostic form of this descriptor:
    /// both gateways, the offered port ranges, and the public key.
    pub fn display_string(&self) -> (r: String)
        ensures
            r@ == crate::wire::display_wireguard(self.deep_view()),
    {
        let mut out: Vec<char> = Vec::new();
        push_lit(&mut out, "gateways ");
        write_ipv4(&mut out, self.ipv4_gateway);
        push_lit(&mut out, " - ");
        write_ipv6(&mut out, self.ipv6_gateway);
        push_lit(&mut out, " port_ranges { ");
        let ghost mark = out@;
        let n = self.port_ranges.len();
        let mut k: usize = 0;
        while k < n
            invariant
                k <= n,
                n == self.port_ranges@.len(),
                self.port_ranges.deep_view().len() == n,
                out@ == mark + joined(
                    self.port_ranges.deep_view().take(k as int),
                    crate::wire::f_display_range(),
                ),
            decreases n - k,
        {
            proof {
                crate::wire::lemma_joined_push(
                    self.port_ranges.deep_view().take(k as int),
                    crate::wire::f_display_range(),
                    self.port_ranges.deep_view()[k as int],
                );
                assert(self.port_ranges.deep_view().take(k + 1)
                    =~= self.port_ranges.deep_view().take(k as int).push(
                    self.port_ranges.deep_view()[k as int],
                ));
            }
            if k > 0 {
                out.push(',');
            }
            write_display_range(&mut out, self.port_ranges[k]);
            proof {
                assert(out@ =~= mark + joined(
                    self.port_ranges.deep_view().take(k + 1),
                    crate::wire::f_display_range(),
                ));
            }
            k = k + 1;
        }
        proof {
            assert(self.port_ranges.deep_view().take(n as int) =~= self.port_ranges.deep_view());
        }
        push_lit(&mut out, " } public_key ");
        push_lit(&mut out, self.public_key.as_str());
        proof {
            assert(out@ =~= crate::wire::display_wireguard(self.deep_view()));
        }
        chars_to_string(out)
    }
}

} // verus!
