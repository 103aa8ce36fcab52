//! The catalog's wire format, as mathematics.
//!
//! A catalog travels as a JSON payload of fixed shape: an object per country,
//! city and relay, with a relay's `tunnels` and `bridges` keys omitted when
//! empty and its runtime-only location never present. This module defines the
//! emitted text and the parse of each grammar element as spec functions, and
//! proves the inversion lemmas — parsing emitted text gives back the value —
//! that the round-trip law rests on.

use vstd::prelude::*;

use crate::catalog::{
    OpenVpnEndpointData, RelayBridgesView, RelayListCityView, RelayListCountryView, RelayListView,
    RelayTunnelsView, RelayView, ShadowsocksEndpointDataView, WireguardEndpointDataView,
};
use crate::net::{Coordinate, Ipv4Address, Ipv6Address, TransportProtocol};
use crate::numerals::{
    base_pow, digit_val, digits_prefix, is_digit, numeral, numeral_fixed, parse_nat, val_of,
};
use crate::numerals::{
    lemma_digits_prefix_of_concat, lemma_numeral_digits, lemma_numeral_fixed,
    lemma_parse_nat_of_numeral, lemma_val_of_numeral,
};

verus! {

/// Reading a fixed text from the front of `s`: the remainder, or nothing
/// when `s` does not start with that text.
pub open spec fn parse_lit(s: Seq<char>, lit: Seq<char>) -> Option<Seq<char>> {
    if s.len() >= lit.len() && s.subrange(0, lit.len() as int) == lit {
        Some(s.skip(lit.len() as int))
    } else {
        None
    }
}

/// Reading a fixed text from the front of its own emission gives the rest.
pub proof fn lemma_parse_lit(lit: Seq<char>, rest: Seq<char>)
    ensures
        parse_lit(lit + rest, lit) == Some(rest),
{
    assert((lit + rest).subrange(0, lit.len() as int) =~= lit);
    assert((lit + rest).skip(lit.len() as int) =~= rest);
}

/// How one character is written inside a quoted string.
pub open spec fn escape_char(c: char) -> Seq<char> {
    if c == '"' || c == '\\' {
        seq!['\\', c]
    } else {
        seq![c]
    }
}

/// The characters of a string as written between its quotes.
pub open spec fn ser_string_body(s: Seq<char>) -> Seq<char>
    decreases s.len(),
{
    if s.len() == 0 {
        Seq::empty()
    } else {
        escape_char(s[0]) + ser_string_body(s.skip(1))
    }
}

/// A quoted string as written on the wire.
pub open spec fn ser_string(s: Seq<char>) -> Seq<char> {
    seq!['"'] + ser_string_body(s) + seq!['"']
}

/// Reading a string's characters up to and over its closing quote.
pub open spec fn parse_string_body(s: Seq<char>) -> Option<(Seq<char>, Seq<char>)>
    decreases s.len(),
{
    if s.len() == 0 {
        None
    } else if s[0] == '"' {
        Some((Seq::empty(), s.skip(1)))
    } else if s[0] == '\\' {
        if s.len() >= 2 && (s[1] == '"' || s[1] == '\\') {
            match parse_string_body(s.skip(2)) {
                None => None,
                Some(p) => Some((seq![s[1]] + p.0, p.1)),
            }
        } else {
            None
        }
    } else {
        match parse_string_body(s.skip(1)) {
            None => None,
            Some(p) => Some((seq![s[0]] + p.0, p.1)),
        }
    }
}

/// Reading a quoted string from the front of `s`.
pub open spec fn parse_string(s: Seq<char>) -> Option<(Seq<char>, Seq<char>)> {
    if s.len() > 0 && s[0] == '"' {
        parse_string_body(s.skip(1))
    } else {
        None
    }
}

/// Reading an emitted string body followed by the closing quote gives back
/// the string.
pub proof fn lemma_parse_string_body(v: Seq<char>, rest: Seq<char>)
    ensures
        parse_string_body(ser_string_body(v) + seq!['"'] + rest) == Some((v, rest)),
    decreases v.len(),
{
    if v.len() == 0 {
        let s = ser_string_body(v) + seq!['"'] + rest;
        assert(s =~= seq!['"'] + rest);
        assert(s[0] == '"');
        assert(s.skip(1) =~= rest);
    } else {
        lemma_parse_string_body(v.skip(1), rest);
        let tail = ser_string_body(v.skip(1)) + seq!['"'] + rest;
        let s = ser_string_body(v) + seq!['"'] + rest;
        if v[0] == '"' || v[0] == '\\' {
            assert(s =~= seq!['\\', v[0]] + tail);
            assert(s[0] == '\\');
            assert(s[1] == v[0]);
            assert(s.len() >= 2);
            assert(s.skip(2) =~= tail);
            assert(seq![s[1]] + v.skip(1) =~= v);
        } else {
            assert(s =~= seq![v[0]] + tail);
            assert(s[0] != '"' && s[0] != '\\');
            assert(s.skip(1) =~= tail);
            assert(seq![s[0]] + v.skip(1) =~= v);
        }
    }
}

/// Reading an emitted quoted string gives back the string.
pub proof fn lemma_parse_string(v: Seq<char>, rest: Seq<char>)
    ensures
        parse_string(ser_string(v) + rest) == Some((v, rest)),
        ser_string(v).len() >= 1,
{
    let s = ser_string(v) + rest;
    assert(s[0] == '"');
    assert(s.skip(1) =~= ser_string_body(v) + seq!['"'] + rest);
    lemma_parse_string_body(v, rest);
}

/// A boolean as written on the wire.
pub open spec fn ser_bool(b: bool) -> Seq<char> {
    if b {
        "true"@
    } else {
        "false"@
    }
}

/// Reading a boolean from the front of `s`.
pub open spec fn parse_bool(s: Seq<char>) -> Option<(bool, Seq<char>)> {
    if s.len() > 0 && s[0] == 't' {
        match parse_lit(s, "true"@) {
            None => None,
            Some(r) => Some((true, r)),
        }
    } else if s.len() > 0 && s[0] == 'f' {
        match parse_lit(s, "false"@) {
            None => None,
            Some(r) => Some((false, r)),
        }
    } else {
        None
    }
}

/// Reading an emitted boolean gives it back.
pub proof fn lemma_parse_bool(b: bool, rest: Seq<char>)
    ensures
        parse_bool(ser_bool(b) + rest) == Some((b, rest)),
{
    reveal_strlit("true");
    reveal_strlit("false");
    if b {
        lemma_parse_lit("true"@, rest);
    } else {
        lemma_parse_lit("false"@, rest);
    }
}

/// A transport protocol's name as written on the wire and in diagnostics.
pub open spec fn ser_protocol(p: TransportProtocol) -> Seq<char> {
    match p {
        TransportProtocol::Tcp => "tcp"@,
        TransportProtocol::Udp => "udp"@,
    }
}

/// Reading a protocol name from the front of `s`.
pub open spec fn parse_protocol(s: Seq<char>) -> Option<(TransportProtocol, Seq<char>)> {
    if s.len() > 0 && s[0] == 't' {
        match parse_lit(s, "tcp"@) {
            None => None,
            Some(r) => Some((TransportProtocol::Tcp, r)),
        }
    } else if s.len() > 0 && s[0] == 'u' {
        match parse_lit(s, "udp"@) {
            None => None,
            Some(r) => Some((TransportProtocol::Udp, r)),
        }
    } else {
        None
    }
}

/// Reading an emitted protocol name gives it back.
pub proof fn lemma_parse_protocol(p: TransportProtocol, rest: Seq<char>)
    ensures
        parse_protocol(ser_protocol(p) + rest) == Some((p, rest)),
{
    reveal_strlit("tcp");
    reveal_strlit("udp");
    match p {
        TransportProtocol::Tcp => lemma_parse_lit("tcp"@, rest),
        TransportProtocol::Udp => lemma_parse_lit("udp"@, rest),
    }
}

/// The magnitude of a coordinate as written: whole degrees, a point, and six
/// fraction digits.
pub open spec fn ser_coord_mag(m: nat) -> Seq<char> {
    numeral(m / 1000000, 10) + seq!['.'] + numeral_fixed(m % 1000000, 6, 10)
}

/// A coordinate as written on the wire.
pub open spec fn ser_coordinate(c: Coordinate) -> Seq<char> {
    if c.micro_degrees < 0 {
        seq!['-'] + ser_coord_mag((-(c.micro_degrees as int)) as nat)
    } else {
        ser_coord_mag(c.micro_degrees as nat)
    }
}

/// Reading a coordinate's fraction digits: one to six digits, scaled to
/// millionths.
pub open spec fn parse_coord_frac(s: Seq<char>) -> Option<(nat, Seq<char>)> {
    let ds = digits_prefix(s, 10);
    if 1 <= ds.len() <= 6 {
        Some((val_of(ds, 10) * base_pow(10, (6 - ds.len()) as nat), s.skip(ds.len() as int)))
    } else {
        None
    }
}

/// Reading a coordinate's magnitude: whole degrees below one thousand, then
/// an optional point and fraction.
pub open spec fn parse_coord_mag(s: Seq<char>) -> Option<(nat, Seq<char>)> {
    match parse_nat(s, 10, 999) {
        None => None,
        Some((ip, r)) => if r.len() > 0 && r[0] == '.' {
            match parse_coord_frac(r.skip(1)) {
                None => None,
                Some((f, r2)) => Some((ip * 1000000 + f, r2)),
            }
        } else {
            Some((ip * 1000000, r))
        },
    }
}

/// Reading a coordinate from the front of `s`.
pub open spec fn parse_coordinate(s: Seq<char>) -> Option<(Coordinate, Seq<char>)> {
    if s.len() > 0 && s[0] == '-' {
        match parse_coord_mag(s.skip(1)) {
            None => None,
            Some((m, r)) => Some((Coordinate { micro_degrees: -(m as int) as i64 }, r)),
        }
    } else {
        match parse_coord_mag(s) {
            None => None,
            Some((m, r)) => Some((Coordinate { micro_degrees: m as i64 }, r)),
        }
    }
}

/// A digit sequence denotes less than its base to the power of its length.
pub proof fn lemma_val_of_bound(ds: Seq<char>, base: nat)
    requires
        2 <= base <= 16,
        forall|i: int| 0 <= i < ds.len() ==> is_digit(#[trigger] ds[i], base),
    ensures
        val_of(ds, base) < base_pow(base, ds.len()),
    decreases ds.len(),
{
    if ds.len() == 0 {
    } else {
        lemma_val_of_bound(ds.drop_last(), base);
        let v = val_of(ds.drop_last(), base);
        let p = base_pow(base, (ds.len() - 1) as nat);
        assert(base_pow(base, ds.len()) == base * p);
        assert(v * base + digit_val(ds.last()) < base * p) by (nonlinear_arith)
            requires
                v < p,
                base >= 2,
                digit_val(ds.last()) < base,
        ;
    }
}

/// Reading an emitted coordinate magnitude followed by anything that does not
/// begin with a digit or a point gives back the magnitude.
pub proof fn lemma_parse_coord_mag(m: nat, rest: Seq<char>)
    requires
        m < 1000000000,
        rest.len() == 0 || (!is_digit(rest[0], 10) && rest[0] != '.'),
    ensures
        parse_coord_mag(ser_coord_mag(m) + rest) == Some((m, rest)),
{
    let ip = m / 1000000;
    let f = m % 1000000;
    let frac = numeral_fixed(f, 6, 10);
    let t1 = seq!['.'] + frac + rest;
    assert(ser_coord_mag(m) + rest =~= numeral(ip, 10) + t1);
    assert(ip <= 999) by (nonlinear_arith)
        requires
            m < 1000000000,
            ip == m / 1000000,
    ;
    lemma_parse_nat_of_numeral(ip, 10, 999, t1);
    assert(t1[0] == '.');
    assert(!is_digit('.', 10));
    assert(t1.skip(1) =~= frac + rest);
    assert(base_pow(10, 6) == 1000000) by {
        assert(base_pow(10, 0) == 1);
        assert(base_pow(10, 1) == 10);
        assert(base_pow(10, 2) == 100);
        assert(base_pow(10, 3) == 1000);
        assert(base_pow(10, 4) == 10000);
        assert(base_pow(10, 5) == 100000);
        assert(base_pow(10, 6) == 1000000);
    }
    lemma_numeral_fixed(f, 6, 10);
    lemma_digits_prefix_of_concat(frac, rest, 10);
    let ds = digits_prefix(frac + rest, 10);
    assert(ds == frac);
    assert(ds.len() == 6);
    assert(val_of(ds, 10) * base_pow(10, 0) == f);
    assert((frac + rest).skip(6) =~= rest);
    assert(parse_coord_frac(frac + rest) == Some((f, rest)));
    vstd::arithmetic::div_mod::lemma_fundamental_div_mod(m as int, 1000000);
}

/// Reading an emitted coordinate followed by anything that does not begin
/// with a digit or a point gives back the coordinate.
pub proof fn lemma_parse_coordinate(c: Coordinate, rest: Seq<char>)
    requires
        c.is_valid(),
        rest.len() == 0 || (!is_digit(rest[0], 10) && rest[0] != '.'),
    ensures
        parse_coordinate(ser_coordinate(c) + rest) == Some((c, rest)),
{
    if c.micro_degrees < 0 {
        let m = (-(c.micro_degrees as int)) as nat;
        let s = ser_coordinate(c) + rest;
        assert(s[0] == '-');
        assert(s.skip(1) =~= ser_coord_mag(m) + rest);
        lemma_parse_coord_mag(m, rest);
    } else {
        let m = c.micro_degrees as nat;
        lemma_parse_coord_mag(m, rest);
        let s = ser_coordinate(c) + rest;
        if s.len() > 0 && s[0] == '-' {
            lemma_numeral_digits(m / 1000000, 10);
            assert(s[0] == numeral(m / 1000000, 10)[0]);
            assert(is_digit(s[0], 10));
            assert(false);
        }
    }
}

/// An IPv4 address as written on the wire: dotted decimal octets.
pub open spec fn ser_ipv4(a: Ipv4Address) -> Seq<char> {
    numeral(a.octet0 as nat, 10) + seq!['.'] + numeral(a.octet1 as nat, 10) + seq!['.'] + numeral(
        a.octet2 as nat,
        10,
    ) + seq!['.'] + numeral(a.octet3 as nat, 10)
}

/// Reading a dot and then a decimal octet.
pub open spec fn parse_dot_octet(s: Seq<char>) -> Option<(nat, Seq<char>)> {
    if s.len() > 0 && s[0] == '.' {
        parse_nat(s.skip(1), 10, 255)
    } else {
        None
    }
}

/// Reading an IPv4 address from the front of `s`.
pub open spec fn parse_ipv4(s: Seq<char>) -> Option<(Ipv4Address, Seq<char>)> {
    match parse_nat(s, 10, 255) {
        None => None,
        Some((o0, r0)) => match parse_dot_octet(r0) {
            None => None,
            Some((o1, r1)) => match parse_dot_octet(r1) {
                None => None,
                Some((o2, r2)) => match parse_dot_octet(r2) {
                    None => None,
                    Some((o3, r3)) => Some(
                        (
                            Ipv4Address {
                                octet0: o0 as u8,
                                octet1: o1 as u8,
                                octet2: o2 as u8,
                                octet3: o3 as u8,
                            },
                            r3,
                        ),
                    ),
                },
            },
        },
    }
}

/// Reading an emitted IPv4 address followed by anything that does not begin
/// with a digit or a dot gives back the address.
pub proof fn lemma_parse_ipv4(a: Ipv4Address, rest: Seq<char>)
    requires
        rest.len() == 0 || (!is_digit(rest[0], 10) && rest[0] != '.'),
    ensures
        parse_ipv4(ser_ipv4(a) + rest) == Some((a, rest)),
{
    let n0 = numeral(a.octet0 as nat, 10);
    let n1 = numeral(a.octet1 as nat, 10);
    let n2 = numeral(a.octet2 as nat, 10);
    let n3 = numeral(a.octet3 as nat, 10);
    let t3 = n3 + rest;
    let t2 = n2 + (seq!['.'] + t3);
    let t1 = n1 + (seq!['.'] + t2);
    let s = ser_ipv4(a) + rest;
    assert(s =~= n0 + (seq!['.'] + t1));
    lemma_parse_nat_of_numeral(a.octet0 as nat, 10, 255, seq!['.'] + t1);
    assert((seq!['.'] + t1)[0] == '.');
    assert((seq!['.'] + t1).skip(1) =~= t1);
    lemma_parse_nat_of_numeral(a.octet1 as nat, 10, 255, seq!['.'] + t2);
    assert(t1 =~= n1 + (seq!['.'] + t2));
    assert((seq!['.'] + t2)[0] == '.');
    assert((seq!['.'] + t2).skip(1) =~= t2);
    lemma_parse_nat_of_numeral(a.octet2 as nat, 10, 255, seq!['.'] + t3);
    assert((seq!['.'] + t3)[0] == '.');
    assert((seq!['.'] + t3).skip(1) =~= t3);
    lemma_parse_nat_of_numeral(a.octet3 as nat, 10, 255, rest);
}

/// An IPv6 address as written on the wire: eight hexadecimal groups,
/// colon-separated, without compression.
pub open spec fn ser_ipv6(a: Ipv6Address) -> Seq<char> {
    numeral(a.group0 as nat, 16) + seq![':'] + numeral(a.group1 as nat, 16) + seq![':'] + numeral(
        a.group2 as nat,
        16,
    ) + seq![':'] + numeral(a.group3 as nat, 16) + seq![':'] + numeral(a.group4 as nat, 16)
        + seq![':'] + numeral(a.group5 as nat, 16) + seq![':'] + numeral(a.group6 as nat, 16)
        + seq![':'] + numeral(a.group7 as nat, 16)
}

/// Reading a colon and then a hexadecimal group.
pub open spec fn parse_colon_group(s: Seq<char>) -> Option<(nat, Seq<char>)> {
    if s.len() > 0 && s[0] == ':' {
        parse_nat(s.skip(1), 16, 65535)
    } else {
        None
    }
}

/// Reading an IPv6 address from the front of `s`.
pub open spec fn parse_ipv6(s: Seq<char>) -> Option<(Ipv6Address, Seq<char>)> {
    match parse_nat(s, 16, 65535) {
        None => None,
        Some((g0, r0)) => match parse_colon_group(r0) {
            None => None,
            Some((g1, r1)) => match parse_colon_group(r1) {
                None => None,
                Some((g2, r2)) => match parse_colon_group(r2) {
                    None => None,
                    Some((g3, r3)) => match parse_colon_group(r3) {
                        None => None,
                        Some((g4, r4)) => match parse_colon_group(r4) {
                            None => None,
                            Some((g5, r5)) => match parse_colon_group(r5) {
                                None => None,
                                Some((g6, r6)) => match parse_colon_group(r6) {
                                    None => None,
                                    Some((g7, r7)) => Some(
                                        (
                                            Ipv6Address {
                                                group0: g0 as u16,
                                                group1: g1 as u16,
                                                group2: g2 as u16,
                                                group3: g3 as u16,
                                                group4: g4 as u16,
                                                group5: g5 as u16,
                                                group6: g6 as u16,
                                                group7: g7 as u16,
                                            },
                                            r7,
                                        ),
                                    ),
                                },
                            },
                        },
                    },
                },
            },
        },
    }
}

/// Reading an emitted IPv6 address followed by anything that does not begin
/// with a hexadecimal digit or a colon gives back the address.
#[verifier::rlimit(100)]
#[verifier::spinoff_prover]
pub proof fn lemma_parse_ipv6(a: Ipv6Address, rest: Seq<char>)
    requires
        rest.len() == 0 || (!is_digit(rest[0], 16) && rest[0] != ':'),
    ensures
        parse_ipv6(ser_ipv6(a) + rest) == Some((a, rest)),
{
    let n0 = numeral(a.group0 as nat, 16);
    let n1 = numeral(a.group1 as nat, 16);
    let n2 = numeral(a.group2 as nat, 16);
    let n3 = numeral(a.group3 as nat, 16);
    let n4 = numeral(a.group4 as nat, 16);
    let n5 = numeral(a.group5 as nat, 16);
    let n6 = numeral(a.group6 as nat, 16);
    let n7 = numeral(a.group7 as nat, 16);
    let t7 = n7 + rest;
    let t6 = n6 + (seq![':'] + t7);
    let t5 = n5 + (seq![':'] + t6);
    let t4 = n4 + (seq![':'] + t5);
    let t3 = n3 + (seq![':'] + t4);
    let t2 = n2 + (seq![':'] + t3);
    let t1 = n1 + (seq![':'] + t2);
    let s = ser_ipv6(a) + rest;
    assert(s =~= n0 + (seq![':'] + t1));
    lemma_parse_nat_of_numeral(a.group0 as nat, 16, 65535, seq![':'] + t1);
    assert((seq![':'] + t1)[0] == ':');
    assert((seq![':'] + t1).skip(1) =~= t1);
    lemma_parse_nat_of_numeral(a.group1 as nat, 16, 65535, seq![':'] + t2);
    assert(t1 =~= n1 + (seq![':'] + t2));
    assert((seq![':'] + t2)[0] == ':');
    assert((seq![':'] + t2).skip(1) =~= t2);
    lemma_parse_nat_of_numeral(a.group2 as nat, 16, 65535, seq![':'] + t3);
    assert((seq![':'] + t3)[0] == ':');
    assert((seq![':'] + t3).skip(1) =~= t3);
    lemma_parse_nat_of_numeral(a.group3 as nat, 16, 65535, seq![':'] + t4);
    assert((seq![':'] + t4)[0] == ':');
    assert((seq![':'] + t4).skip(1) =~= t4);
    lemma_parse_nat_of_numeral(a.group4 as nat, 16, 65535, seq![':'] + t5);
    assert((seq![':'] + t5)[0] == ':');
    assert((seq![':'] + t5).skip(1) =~= t5);
    lemma_parse_nat_of_numeral(a.group5 as nat, 16, 65535, seq![':'] + t6);
    assert((seq![':'] + t6)[0] == ':');
    assert((seq![':'] + t6).skip(1) =~= t6);
    lemma_parse_nat_of_numeral(a.group6 as nat, 16, 65535, seq![':'] + t7);
    assert((seq![':'] + t7)[0] == ':');
    assert((seq![':'] + t7).skip(1) =~= t7);
    lemma_parse_nat_of_numeral(a.group7 as nat, 16, 65535, rest);
}

} // verus!

verus! {

/// The elements of a list after the first, as written: a comma before each.
pub open spec fn more_text<T>(l: Seq<T>, f: spec_fn(T) -> Seq<char>) -> Seq<char>
    decreases l.len(),
{
    if l.len() == 0 {
        Seq::empty()
    } else {
        seq![','] + f(l[0]) + more_text(l.skip(1), f)
    }
}

/// A list's elements as written, comma-separated, without the brackets.
pub open spec fn joined<T>(l: Seq<T>, f: spec_fn(T) -> Seq<char>) -> Seq<char> {
    if l.len() == 0 {
        Seq::empty()
    } else {
        f(l[0]) + more_text(l.skip(1), f)
    }
}

/// Reading list elements after the first: a closing bracket ends the list,
/// and a comma precedes each further element.
pub open spec fn parse_list_more<T>(
    s: Seq<char>,
    p: spec_fn(Seq<char>) -> Option<(T, Seq<char>)>,
) -> Option<(Seq<T>, Seq<char>)>
    decreases s.len(),
{
    if s.len() > 0 && s[0] == ']' {
        Some((Seq::<T>::empty(), s.skip(1)))
    } else if s.len() > 0 && s[0] == ',' {
        match p(s.skip(1)) {
            None => None,
            Some((v, r)) => if r.len() < s.len() {
                match parse_list_more(r, p) {
                    None => None,
                    Some((vs, r2)) => Some((seq![v] + vs, r2)),
                }
            } else {
                None
            },
        }
    } else {
        None
    }
}

/// Reading a list from the character after its opening bracket, over its
/// closing bracket.
pub open spec fn parse_list<T>(
    s: Seq<char>,
    p: spec_fn(Seq<char>) -> Option<(T, Seq<char>)>,
) -> Option<(Seq<T>, Seq<char>)> {
    if s.len() > 0 && s[0] == ']' {
        Some((Seq::<T>::empty(), s.skip(1)))
    } else {
        match p(s) {
            None => None,
            Some((v, r)) => if r.len() < s.len() {
                match parse_list_more(r, p) {
                    None => None,
                    Some((vs, r2)) => Some((seq![v] + vs, r2)),
                }
            } else {
                None
            },
        }
    }
}

/// Reading the emission of a list's later elements, then the closing bracket,
/// gives back those elements.
pub proof fn lemma_parse_list_more_of_joined<T>(
    l: Seq<T>,
    f: spec_fn(T) -> Seq<char>,
    p: spec_fn(Seq<char>) -> Option<(T, Seq<char>)>,
    rest: Seq<char>,
)
    requires
        forall|i: int, r: Seq<char>|
            0 <= i < l.len() ==> #[trigger] p(f(l[i]) + r) == Some((l[i], r)),
        forall|i: int| 0 <= i < l.len() ==> (#[trigger] f(l[i])).len() >= 1,
    ensures
        parse_list_more(more_text(l, f) + seq![']'] + rest, p) == Some((l, rest)),
    decreases l.len(),
{
    let s = more_text(l, f) + seq![']'] + rest;
    if l.len() == 0 {
        assert(s =~= seq![']'] + rest);
        assert(s[0] == ']');
        assert(s.skip(1) =~= rest);
        assert(l =~= Seq::<T>::empty());
    } else {
        let tail = more_text(l.skip(1), f) + seq![']'] + rest;
        assert(s =~= seq![','] + (f(l[0]) + tail));
        assert(s[0] == ',');
        assert(s.skip(1) =~= f(l[0]) + tail);
        assert(p(f(l[0]) + tail) == Some((l[0], tail)));
        assert(f(l[0]).len() >= 1);
        assert(tail.len() < s.len());
        assert forall|i: int, r: Seq<char>|
            0 <= i < l.skip(1).len() implies #[trigger] p(f(l.skip(1)[i]) + r) == Some(
            (l.skip(1)[i], r),
        ) by {
            assert(l.skip(1)[i] == l[i + 1]);
            assert(p(f(l[i + 1]) + r) == Some((l[i + 1], r)));
        }
        assert forall|i: int| 0 <= i < l.skip(1).len() implies (#[trigger] f(
            l.skip(1)[i],
        )).len() >= 1 by {
            assert(l.skip(1)[i] == l[i + 1]);
            assert(f(l[i + 1]).len() >= 1);
        }
        lemma_parse_list_more_of_joined(l.skip(1), f, p, rest);
        assert(parse_list_more(s, p) == Some((seq![l[0]] + l.skip(1), rest)));
        assert(seq![l[0]] + l.skip(1) =~= l);
    }
}

/// Reading the emission of a whole list, then the closing bracket, gives
/// back the list.
pub proof fn lemma_parse_list_of_joined<T>(
    l: Seq<T>,
    f: spec_fn(T) -> Seq<char>,
    p: spec_fn(Seq<char>) -> Option<(T, Seq<char>)>,
    rest: Seq<char>,
)
    requires
        forall|i: int, r: Seq<char>|
            0 <= i < l.len() ==> #[trigger] p(f(l[i]) + r) == Some((l[i], r)),
        forall|i: int| 0 <= i < l.len() ==> (#[trigger] f(l[i])).len() >= 1,
        forall|i: int| 0 <= i < l.len() ==> f(l[i])[0] != ']',
    ensures
        parse_list(joined(l, f) + seq![']'] + rest, p) == Some((l, rest)),
{
    let s = joined(l, f) + seq![']'] + rest;
    if l.len() == 0 {
        assert(s =~= seq![']'] + rest);
        assert(s[0] == ']');
        assert(s.skip(1) =~= rest);
        assert(l =~= Seq::<T>::empty());
    } else {
        let tail = more_text(l.skip(1), f) + seq![']'] + rest;
        assert(s =~= f(l[0]) + tail);
        assert(f(l[0]).len() >= 1);
        assert(s[0] == f(l[0])[0]);
        assert(s[0] != ']');
        assert(p(f(l[0]) + tail) == Some((l[0], tail)));
        assert(tail.len() < s.len());
        assert forall|i: int, r: Seq<char>|
            0 <= i < l.skip(1).len() implies #[trigger] p(f(l.skip(1)[i]) + r) == Some(
            (l.skip(1)[i], r),
        ) by {
            assert(l.skip(1)[i] == l[i + 1]);
            assert(p(f(l[i + 1]) + r) == Some((l[i + 1], r)));
        }
        assert forall|i: int| 0 <= i < l.skip(1).len() implies (#[trigger] f(
            l.skip(1)[i],
        )).len() >= 1 by {
            assert(l.skip(1)[i] == l[i + 1]);
            assert(f(l[i + 1]).len() >= 1);
        }
        lemma_parse_list_more_of_joined(l.skip(1), f, p, rest);
        assert(parse_list(s, p) == Some((seq![l[0]] + l.skip(1), rest)));
        assert(seq![l[0]] + l.skip(1) =~= l);
    }
}

/// Every element of a parsed list satisfies what every successful element
/// parse establishes.
pub proof fn lemma_parse_list_elems<T>(
    s: Seq<char>,
    p: spec_fn(Seq<char>) -> Option<(T, Seq<char>)>,
    q: spec_fn(T) -> bool,
)
    requires
        forall|s2: Seq<char>| (#[trigger] p(s2)) is Some ==> q(p(s2)->Some_0.0),
        parse_list(s, p) is Some,
    ensures
        forall|i: int|
            0 <= i < parse_list(s, p)->Some_0.0.len() ==> q(#[trigger] parse_list(s, p)->Some_0.0[i]),
{
    let l = parse_list(s, p)->Some_0.0;
    if s.len() > 0 && s[0] == ']' {
    } else {
        let (v, r) = p(s)->Some_0;
        lemma_parse_list_more_elems(r, p, q);
        let vs = parse_list_more(r, p)->Some_0.0;
        assert(l == seq![v] + vs);
        assert(forall|i: int| 1 <= i < l.len() ==> l[i] == vs[i - 1]);
        assert(q(v));
    }
}

/// As [`lemma_parse_list_elems`], for the later elements of a list.
pub proof fn lemma_parse_list_more_elems<T>(
    s: Seq<char>,
    p: spec_fn(Seq<char>) -> Option<(T, Seq<char>)>,
    q: spec_fn(T) -> bool,
)
    requires
        forall|s2: Seq<char>| (#[trigger] p(s2)) is Some ==> q(p(s2)->Some_0.0),
        parse_list_more(s, p) is Some,
    ensures
        forall|i: int|
            0 <= i < parse_list_more(s, p)->Some_0.0.len() ==> q(
                #[trigger] parse_list_more(s, p)->Some_0.0[i],
            ),
    decreases s.len(),
{
    let l = parse_list_more(s, p)->Some_0.0;
    if s.len() > 0 && s[0] == ']' {
    } else {
        let (v, r) = p(s.skip(1))->Some_0;
        lemma_parse_list_more_elems(r, p, q);
        let vs = parse_list_more(r, p)->Some_0.0;
        assert(l == seq![v] + vs);
        assert(forall|i: int| 1 <= i < l.len() ==> l[i] == vs[i - 1]);
        assert(q(v));
    }
}

} // verus!

verus! {

/// The emission of one OpenVPN descriptor, as a function value.
pub open spec fn f_ser_openvpn() -> spec_fn(OpenVpnEndpointData) -> Seq<char> {
    |v: OpenVpnEndpointData| ser_openvpn(v)
}

/// The parse of one OpenVPN descriptor, as a function value.
pub open spec fn f_parse_openvpn() -> spec_fn(Seq<char>) -> Option<
    (OpenVpnEndpointData, Seq<char>),
> {
    |s: Seq<char>| parse_openvpn(s)
}

/// The emission of one port range, as a function value.
pub open spec fn f_ser_range() -> spec_fn((u16, u16)) -> Seq<char> {
    |v: (u16, u16)| ser_range(v)
}

/// The parse of one port range, as a function value.
pub open spec fn f_parse_range() -> spec_fn(Seq<char>) -> Option<((u16, u16), Seq<char>)> {
    |s: Seq<char>| parse_range(s)
}

/// The emission of one WireGuard descriptor, as a function value.
pub open spec fn f_ser_wireguard() -> spec_fn(WireguardEndpointDataView) -> Seq<char> {
    |v: WireguardEndpointDataView| ser_wireguard(v)
}

/// The parse of one WireGuard descriptor, as a function value.
pub open spec fn f_parse_wireguard() -> spec_fn(Seq<char>) -> Option<
    (WireguardEndpointDataView, Seq<char>),
> {
    |s: Seq<char>| parse_wireguard(s)
}

/// The emission of one Shadowsocks descriptor, as a function value.
pub open spec fn f_ser_shadowsocks() -> spec_fn(ShadowsocksEndpointDataView) -> Seq<char> {
    |v: ShadowsocksEndpointDataView| ser_shadowsocks(v)
}

/// The parse of one Shadowsocks descriptor, as a function value.
pub open spec fn f_parse_shadowsocks() -> spec_fn(Seq<char>) -> Option<
    (ShadowsocksEndpointDataView, Seq<char>),
> {
    |s: Seq<char>| parse_shadowsocks(s)
}

/// The emission of one relay, as a function value.
pub open spec fn f_ser_relay() -> spec_fn(RelayView) -> Seq<char> {
    |v: RelayView| ser_relay(v)
}

/// The parse of one relay, as a function value.
pub open spec fn f_parse_relay() -> spec_fn(Seq<char>) -> Option<(RelayView, Seq<char>)> {
    |s: Seq<char>| parse_relay(s)
}

/// The emission of one city, as a function value.
pub open spec fn f_ser_city() -> spec_fn(RelayListCityView) -> Seq<char> {
    |v: RelayListCityView| ser_city(v)
}

/// The parse of one city, as a function value.
pub open spec fn f_parse_city() -> spec_fn(Seq<char>) -> Option<(RelayListCityView, Seq<char>)> {
    |s: Seq<char>| parse_city(s)
}

/// The emission of one country, as a function value.
pub open spec fn f_ser_country() -> spec_fn(RelayListCountryView) -> Seq<char> {
    |v: RelayListCountryView| ser_country(v)
}

/// The parse of one country, as a function value.
pub open spec fn f_parse_country() -> spec_fn(Seq<char>) -> Option<
    (RelayListCountryView, Seq<char>),
> {
    |s: Seq<char>| parse_country(s)
}

/// An OpenVPN descriptor as written on the wire.
#[verifier::opaque]
pub open spec fn ser_openvpn(v: OpenVpnEndpointData) -> Seq<char> {
    "{\"port\":"@ + numeral(v.port as nat, 10) + ",\"protocol\":\""@ + ser_protocol(v.protocol)
        + "\"}"@
}

/// Reading an OpenVPN descriptor from the front of `s`.
#[verifier::opaque]
pub open spec fn parse_openvpn(s: Seq<char>) -> Option<(OpenVpnEndpointData, Seq<char>)> {
    match parse_lit(s, "{\"port\":"@) {
        None => None,
        Some(r1) => match parse_nat(r1, 10, 65535) {
            None => None,
            Some((port, r2)) => match parse_lit(r2, ",\"protocol\":\""@) {
                None => None,
                Some(r3) => match parse_protocol(r3) {
                    None => None,
                    Some((proto, r4)) => match parse_lit(r4, "\"}"@) {
                        None => None,
                        Some(r5) => Some(
                            (OpenVpnEndpointData { port: port as u16, protocol: proto }, r5),
                        ),
                    },
                },
            },
        },
    }
}

/// A port range as written on the wire: a two-element array.
#[verifier::opaque]
pub open spec fn ser_range(v: (u16, u16)) -> Seq<char> {
    seq!['['] + numeral(v.0 as nat, 10) + seq![','] + numeral(v.1 as nat, 10) + seq![']']
}

/// Reading a port range from the front of `s`. A range whose low bound
/// exceeds its high bound is refused.
#[verifier::opaque]
pub open spec fn parse_range(s: Seq<char>) -> Option<((u16, u16), Seq<char>)> {
    if s.len() > 0 && s[0] == '[' {
        match parse_nat(s.skip(1), 10, 65535) {
            None => None,
            Some((lo, r1)) => if r1.len() > 0 && r1[0] == ',' {
                match parse_nat(r1.skip(1), 10, 65535) {
                    None => None,
                    Some((hi, r2)) => if r2.len() > 0 && r2[0] == ']' && lo <= hi {
                        Some(((lo as u16, hi as u16), r2.skip(1)))
                    } else {
                        None
                    },
                }
            } else {
                None
            },
        }
    } else {
        None
    }
}

/// A WireGuard descriptor as written on the wire.
#[verifier::opaque]
pub open spec fn ser_wireguard(v: WireguardEndpointDataView) -> Seq<char> {
    "{\"port_ranges\":["@ + joined(v.port_ranges, f_ser_range()) + "],\"ipv4_gateway\":\""@
        + ser_ipv4(v.ipv4_gateway) + "\",\"ipv6_gateway\":\""@ + ser_ipv6(v.ipv6_gateway)
        + "\",\"public_key\":"@ + ser_string(v.public_key) + "}"@
}

/// Reading a WireGuard descriptor from the front of `s`.
#[verifier::opaque]
pub open spec fn parse_wireguard(s: Seq<char>) -> Option<(WireguardEndpointDataView, Seq<char>)> {
    match parse_lit(s, "{\"port_ranges\":["@) {
        None => None,
        Some(r1) => match parse_list(r1, f_parse_range()) {
            None => None,
            Some((ranges, r2)) => match parse_lit(r2, ",\"ipv4_gateway\":\""@) {
                None => None,
                Some(r3) => match parse_ipv4(r3) {
                    None => None,
                    Some((g4, r4)) => match parse_lit(r4, "\",\"ipv6_gateway\":\""@) {
                        None => None,
                        Some(r5) => match parse_ipv6(r5) {
                            None => None,
                            Some((g6, r6)) => match parse_lit(r6, "\",\"public_key\":"@) {
                                None => None,
                                Some(r7) => match parse_string(r7) {
                                    None => None,
                                    Some((key, r8)) => match parse_lit(r8, "}"@) {
                                        None => None,
                                        Some(r9) => Some(
                                            (
                                                WireguardEndpointDataView {
                                                    port_ranges: ranges,
                                                    ipv4_gateway: g4,
                                                    ipv6_gateway: g6,
                                                    public_key: key,
                                                },
                                                r9,
                                            ),
                                        ),
                                    },
                                },
                            },
                        },
                    },
                },
            },
        },
    }
}

/// A Shadowsocks descriptor as written on the wire.
#[verifier::opaque]
pub open spec fn ser_shadowsocks(v: ShadowsocksEndpointDataView) -> Seq<char> {
    "{\"port\":"@ + numeral(v.port as nat, 10) + ",\"cipher\":"@ + ser_string(v.cipher)
        + ",\"password\":"@ + ser_string(v.password) + ",\"protocol\":\""@ + ser_protocol(
        v.protocol,
    ) + "\"}"@
}

/// Reading a Shadowsocks descriptor from the front of `s`.
#[verifier::opaque]
pub open spec fn parse_shadowsocks(s: Seq<char>) -> Option<
    (ShadowsocksEndpointDataView, Seq<char>),
> {
    match parse_lit(s, "{\"port\":"@) {
        None => None,
        Some(r1) => match parse_nat(r1, 10, 65535) {
            None => None,
            Some((port, r2)) => match parse_lit(r2, ",\"cipher\":"@) {
                None => None,
                Some(r3) => match parse_string(r3) {
                    None => None,
                    Some((cipher, r4)) => match parse_lit(r4, ",\"password\":"@) {
                        None => None,
                        Some(r5) => match parse_string(r5) {
                            None => None,
                            Some((password, r6)) => match parse_lit(r6, ",\"protocol\":\""@) {
                                None => None,
                                Some(r7) => match parse_protocol(r7) {
                                    None => None,
                                    Some((proto, r8)) => match parse_lit(r8, "\"}"@) {
                                        None => None,
                                        Some(r9) => Some(
                                            (
                                                ShadowsocksEndpointDataView {
                                                    port: port as u16,
                                                    cipher,
                                                    password,
                                                    protocol: proto,
                                                },
                                                r9,
                                            ),
                                        ),
                                    },
                                },
                            },
                        },
                    },
                },
            },
        },
    }
}

/// The tunnel sets with no endpoints.
pub open spec fn empty_tunnels() -> RelayTunnelsView {
    RelayTunnelsView { openvpn: Seq::empty(), wireguard: Seq::empty() }
}

/// The bridge set with no endpoints.
pub open spec fn empty_bridges() -> RelayBridgesView {
    RelayBridgesView { shadowsocks: Seq::empty() }
}

/// A relay's tunnel sets as written on the wire.
#[verifier::opaque]
pub open spec fn ser_tunnels(t: RelayTunnelsView) -> Seq<char> {
    "{\"openvpn\":["@ + joined(t.openvpn, f_ser_openvpn()) + "],\"wireguard\":["@ + joined(
        t.wireguard,
        f_ser_wireguard(),
    ) + "]}"@
}

/// Reading a relay's tunnel sets from the front of `s`.
#[verifier::opaque]
pub open spec fn parse_tunnels(s: Seq<char>) -> Option<(RelayTunnelsView, Seq<char>)> {
    match parse_lit(s, "{\"openvpn\":["@) {
        None => None,
        Some(r1) => match parse_list(r1, f_parse_openvpn()) {
            None => None,
            Some((ovs, r2)) => match parse_lit(r2, ",\"wireguard\":["@) {
                None => None,
                Some(r3) => match parse_list(r3, f_parse_wireguard()) {
                    None => None,
                    Some((wgs, r4)) => match parse_lit(r4, "}"@) {
                        None => None,
                        Some(r5) => Some(
                            (RelayTunnelsView { openvpn: ovs, wireguard: wgs }, r5),
                        ),
                    },
                },
            },
        },
    }
}

/// A relay's bridge set as written on the wire.
#[verifier::opaque]
pub open spec fn ser_bridges(b: RelayBridgesView) -> Seq<char> {
    "{\"shadowsocks\":["@ + joined(b.shadowsocks, f_ser_shadowsocks()) + "]}"@
}

/// Reading a relay's bridge set from the front of `s`.
#[verifier::opaque]
pub open spec fn parse_bridges(s: Seq<char>) -> Option<(RelayBridgesView, Seq<char>)> {
    match parse_lit(s, "{\"shadowsocks\":["@) {
        None => None,
        Some(r1) => match parse_list(r1, f_parse_shadowsocks()) {
            None => None,
            Some((sss, r2)) => match parse_lit(r2, "}"@) {
                None => None,
                Some(r3) => Some((RelayBridgesView { shadowsocks: sss }, r3)),
            },
        },
    }
}

/// A relay as written on the wire. The `tunnels` and `bridges` keys are
/// omitted exactly when empty, and the runtime-only location never appears.
#[verifier::opaque]
pub open spec fn ser_relay(v: RelayView) -> Seq<char> {
    "{\"hostname\":"@ + ser_string(v.hostname) + ",\"ipv4_addr_in\":\""@ + ser_ipv4(v.ipv4_addr_in)
        + "\",\"include_in_country\":"@ + ser_bool(v.include_in_country) + ",\"weight\":"@
        + numeral(v.weight as nat, 10) + (if !v.tunnels.is_empty() {
        ",\"tunnels\":"@ + ser_tunnels(v.tunnels)
    } else {
        Seq::empty()
    }) + (if !v.bridges.is_empty() {
        ",\"bridges\":"@ + ser_bridges(v.bridges)
    } else {
        Seq::empty()
    }) + "}"@
}

/// Reading what follows a relay's weight: an optional tunnels key, an
/// optional bridges key, and the closing brace. A missing key leaves the
/// corresponding set empty.
#[verifier::opaque]
pub open spec fn parse_relay_opts(s: Seq<char>) -> Option<
    ((RelayTunnelsView, RelayBridgesView), Seq<char>),
> {
    match parse_lit(s, ",\"tunnels\":"@) {
        Some(r1) => match parse_tunnels(r1) {
            None => None,
            Some((t, r2)) => match parse_lit(r2, ",\"bridges\":"@) {
                Some(r3) => match parse_bridges(r3) {
                    None => None,
                    Some((b, r4)) => if r4.len() > 0 && r4[0] == '}' {
                        Some(((t, b), r4.skip(1)))
                    } else {
                        None
                    },
                },
                None => if r2.len() > 0 && r2[0] == '}' {
                    Some(((t, empty_bridges()), r2.skip(1)))
                } else {
                    None
                },
            },
        },
        None => match parse_lit(s, ",\"bridges\":"@) {
            Some(r1) => match parse_bridges(r1) {
                None => None,
                Some((b, r2)) => if r2.len() > 0 && r2[0] == '}' {
                    Some(((empty_tunnels(), b), r2.skip(1)))
                } else {
                    None
                },
            },
            None => if s.len() > 0 && s[0] == '}' {
                Some(((empty_tunnels(), empty_bridges()), s.skip(1)))
            } else {
                None
            },
        },
    }
}

/// Reading a relay from the front of `s`. The location of a freshly read
/// relay is always absent.
#[verifier::opaque]
pub open spec fn parse_relay(s: Seq<char>) -> Option<(RelayView, Seq<char>)> {
    match parse_lit(s, "{\"hostname\":"@) {
        None => None,
        Some(r1) => match parse_string(r1) {
            None => None,
            Some((hostname, r2)) => match parse_lit(r2, ",\"ipv4_addr_in\":\""@) {
                None => None,
                Some(r3) => match parse_ipv4(r3) {
                    None => None,
                    Some((ip, r4)) => match parse_lit(r4, "\",\"include_in_country\":"@) {
                        None => None,
                        Some(r5) => match parse_bool(r5) {
                            None => None,
                            Some((inc, r6)) => match parse_lit(r6, ",\"weight\":"@) {
                                None => None,
                                Some(r7) => match parse_nat(r7, 10, 18446744073709551615) {
                                    None => None,
                                    Some((w, r8)) => match parse_relay_opts(r8) {
                                        None => None,
                                        Some(((t, b), r9)) => Some(
                                            (
                                                RelayView {
                                                    hostname,
                                                    ipv4_addr_in: ip,
                                                    include_in_country: inc,
                                                    weight: w as u64,
                                                    tunnels: t,
                                                    bridges: b,
                                                    location: None,
                                                },
                                                r9,
                                            ),
                                        ),
                                    },
                                },
                            },
                        },
                    },
                },
            },
        },
    }
}

/// A city as written on the wire.
#[verifier::opaque]
pub open spec fn ser_city(v: RelayListCityView) -> Seq<char> {
    "{\"name\":"@ + ser_string(v.name) + ",\"code\":"@ + ser_string(v.code) + ",\"latitude\":"@
        + ser_coordinate(v.latitude) + ",\"longitude\":"@ + ser_coordinate(v.longitude)
        + ",\"relays\":["@ + joined(v.relays, f_ser_relay()) + "]}"@
}

/// Reading a city from the front of `s`.
#[verifier::opaque]
pub open spec fn parse_city(s: Seq<char>) -> Option<(RelayListCityView, Seq<char>)> {
    match parse_lit(s, "{\"name\":"@) {
        None => None,
        Some(r1) => match parse_string(r1) {
            None => None,
            Some((name, r2)) => match parse_lit(r2, ",\"code\":"@) {
                None => None,
                Some(r3) => match parse_string(r3) {
                    None => None,
                    Some((code, r4)) => match parse_lit(r4, ",\"latitude\":"@) {
                        None => None,
                        Some(r5) => match parse_coordinate(r5) {
                            None => None,
                            Some((lat, r6)) => match parse_lit(r6, ",\"longitude\":"@) {
                                None => None,
                                Some(r7) => match parse_coordinate(r7) {
                                    None => None,
                                    Some((lon, r8)) => match parse_lit(r8, ",\"relays\":["@) {
                                        None => None,
                                        Some(r9) => match parse_list(r9, f_parse_relay()) {
                                            None => None,
                                            Some((relays, r10)) => match parse_lit(r10, "}"@) {
                                                None => None,
                                                Some(r11) => Some(
                                                    (
                                                        RelayListCityView {
                                                            name,
                                                            code,
                                                            latitude: lat,
                                                            longitude: lon,
                                                            relays,
                                                        },
                                                        r11,
                                                    ),
                                                ),
                                            },
                                        },
                                    },
                                },
                            },
                        },
                    },
                },
            },
        },
    }
}

/// A country as written on the wire.
#[verifier::opaque]
pub open spec fn ser_country(v: RelayListCountryView) -> Seq<char> {
    "{\"name\":"@ + ser_string(v.name) + ",\"code\":"@ + ser_string(v.code) + ",\"cities\":["@
        + joined(v.cities, f_ser_city()) + "]}"@
}

/// Reading a country from the front of `s`.
#[verifier::opaque]
pub open spec fn parse_country(s: Seq<char>) -> Option<(RelayListCountryView, Seq<char>)> {
    match parse_lit(s, "{\"name\":"@) {
        None => None,
        Some(r1) => match parse_string(r1) {
            None => None,
            Some((name, r2)) => match parse_lit(r2, ",\"code\":"@) {
                None => None,
                Some(r3) => match parse_string(r3) {
                    None => None,
                    Some((code, r4)) => match parse_lit(r4, ",\"cities\":["@) {
                        None => None,
                        Some(r5) => match parse_list(r5, f_parse_city()) {
                            None => None,
                            Some((cities, r6)) => match parse_lit(r6, "}"@) {
                                None => None,
                                Some(r7) => Some(
                                    (RelayListCountryView { name, code, cities }, r7),
                                ),
                            },
                        },
                    },
                },
            },
        },
    }
}

/// A whole catalog as written on the wire.
#[verifier::opaque]
pub open spec fn ser_catalog(v: RelayListView) -> Seq<char> {
    "{\"countries\":["@ + joined(v.countries, f_ser_country()) + "]}"@
}

/// Reading a whole catalog from the front of `s`.
#[verifier::opaque]
pub open spec fn parse_catalog(s: Seq<char>) -> Option<(RelayListView, Seq<char>)> {
    match parse_lit(s, "{\"countries\":["@) {
        None => None,
        Some(r1) => match parse_list(r1, f_parse_country()) {
            None => None,
            Some((countries, r2)) => match parse_lit(r2, "}"@) {
                None => None,
                Some(r3) => Some((RelayListView { countries }, r3)),
            },
        },
    }
}

impl WireguardEndpointDataView {
    /// Every offered port range keeps its low bound at or below its high
    /// bound.
    pub open spec fn is_valid(self) -> bool {
        forall|i: int|
            0 <= i < self.port_ranges.len() ==> (#[trigger] self.port_ranges[i]).0
                <= self.port_ranges[i].1
    }
}

impl RelayView {
    /// What holds of every relay the wire can carry: valid WireGuard ranges
    /// and no runtime-only location.
    pub open spec fn is_valid(self) -> bool {
        &&& forall|i: int|
            0 <= i < self.tunnels.wireguard.len() ==> (#[trigger] self.tunnels.wireguard[i]).is_valid()
        &&& self.location is None
    }
}

impl RelayListCityView {
    /// What holds of every city the wire can carry: coordinates within the
    /// wire's range and valid relays.
    pub open spec fn is_valid(self) -> bool {
        &&& self.latitude.is_valid()
        &&& self.longitude.is_valid()
        &&& forall|i: int| 0 <= i < self.relays.len() ==> (#[trigger] self.relays[i]).is_valid()
    }
}

impl RelayListCountryView {
    /// What holds of every country the wire can carry.
    pub open spec fn is_valid(self) -> bool {
        forall|i: int| 0 <= i < self.cities.len() ==> (#[trigger] self.cities[i]).is_valid()
    }
}

impl RelayListView {
    /// What holds of every catalog the wire can carry.
    pub open spec fn is_valid(self) -> bool {
        forall|i: int| 0 <= i < self.countries.len() ==> (#[trigger] self.countries[i]).is_valid()
    }
}

} // verus!

verus! {

/// Reading an emitted OpenVPN descriptor gives it back.
pub proof fn lemma_parse_openvpn(v: OpenVpnEndpointData, rest: Seq<char>)
    ensures
        parse_openvpn(ser_openvpn(v) + rest) == Some((v, rest)),
        ser_openvpn(v).len() >= 1,
        ser_openvpn(v)[0] == '{',
{
    reveal(ser_openvpn);
    reveal(parse_openvpn);
    reveal_strlit("{\"port\":");
    reveal_strlit(",\"protocol\":\"");
    reveal_strlit("\"}");
    let t4 = "\"}"@ + rest;
    let t3 = ser_protocol(v.protocol) + t4;
    let t2 = ",\"protocol\":\""@ + t3;
    let t1 = numeral(v.port as nat, 10) + t2;
    let s = ser_openvpn(v) + rest;
    assert(s =~= "{\"port\":"@ + t1);
    lemma_parse_lit("{\"port\":"@, t1);
    assert(t2[0] == ',');
    lemma_parse_nat_of_numeral(v.port as nat, 10, 65535, t2);
    lemma_parse_lit(",\"protocol\":\""@, t3);
    lemma_parse_protocol(v.protocol, t4);
    lemma_parse_lit("\"}"@, rest);
    assert(ser_openvpn(v)[0] == "{\"port\":"@[0]);
}

/// Reading an emitted port range gives it back.
pub proof fn lemma_parse_range(v: (u16, u16), rest: Seq<char>)
    requires
        v.0 <= v.1,
    ensures
        parse_range(ser_range(v) + rest) == Some((v, rest)),
        ser_range(v).len() >= 1,
        ser_range(v)[0] == '[',
{
    reveal(ser_range);
    reveal(parse_range);
    let s = ser_range(v) + rest;
    let t2 = numeral(v.1 as nat, 10) + (seq![']'] + rest);
    let t1 = numeral(v.0 as nat, 10) + (seq![','] + t2);
    assert(s =~= seq!['['] + t1);
    assert(s[0] == '[');
    assert(s.skip(1) =~= t1);
    lemma_parse_nat_of_numeral(v.0 as nat, 10, 65535, seq![','] + t2);
    assert((seq![','] + t2)[0] == ',');
    assert((seq![','] + t2).skip(1) =~= t2);
    lemma_parse_nat_of_numeral(v.1 as nat, 10, 65535, seq![']'] + rest);
    assert((seq![']'] + rest)[0] == ']');
    assert((seq![']'] + rest).skip(1) =~= rest);
}

/// Reading an emitted Shadowsocks descriptor gives it back.
pub proof fn lemma_parse_shadowsocks(v: ShadowsocksEndpointDataView, rest: Seq<char>)
    ensures
        parse_shadowsocks(ser_shadowsocks(v) + rest) == Some((v, rest)),
        ser_shadowsocks(v).len() >= 1,
        ser_shadowsocks(v)[0] == '{',
{
    reveal(ser_shadowsocks);
    reveal(parse_shadowsocks);
    reveal_strlit("{\"port\":");
    reveal_strlit(",\"cipher\":");
    reveal_strlit(",\"password\":");
    reveal_strlit(",\"protocol\":\"");
    reveal_strlit("\"}");
    let t8 = "\"}"@ + rest;
    let t7 = ser_protocol(v.protocol) + t8;
    let t6 = ",\"protocol\":\""@ + t7;
    let t5 = ser_string(v.password) + t6;
    let t4 = ",\"password\":"@ + t5;
    let t3 = ser_string(v.cipher) + t4;
    let t2 = ",\"cipher\":"@ + t3;
    let t1 = numeral(v.port as nat, 10) + t2;
    let s = ser_shadowsocks(v) + rest;
    assert(s =~= "{\"port\":"@ + t1);
    lemma_parse_lit("{\"port\":"@, t1);
    assert(t2[0] == ',');
    lemma_parse_nat_of_numeral(v.port as nat, 10, 65535, t2);
    lemma_parse_lit(",\"cipher\":"@, t3);
    lemma_parse_string(v.cipher, t4);
    lemma_parse_lit(",\"password\":"@, t5);
    lemma_parse_string(v.password, t6);
    lemma_parse_lit(",\"protocol\":\""@, t7);
    lemma_parse_protocol(v.protocol, t8);
    lemma_parse_lit("\"}"@, rest);
    assert(ser_shadowsocks(v)[0] == "{\"port\":"@[0]);
}

} // verus!

verus! {

/// Reading the emission of a list of port ranges, bracket-closed, gives the
/// ranges back.
pub proof fn lemma_range_list(l: Seq<(u16, u16)>, rest: Seq<char>)
    requires
        forall|i: int| 0 <= i < l.len() ==> (#[trigger] l[i]).0 <= l[i].1,
    ensures
        parse_list(joined(l, f_ser_range()) + seq![']'] + rest, f_parse_range()) == Some((l, rest)),
{
    assert forall|i: int, r: Seq<char>|
        0 <= i < l.len() implies #[trigger] f_parse_range()(f_ser_range()(l[i]) + r) == Some(
        (l[i], r),
    ) by {
        assert(l[i].0 <= l[i].1);
        lemma_parse_range(l[i], r);
    }
    assert forall|i: int| 0 <= i < l.len() implies (#[trigger] f_ser_range()(l[i])).len() >= 1
        && f_ser_range()(l[i])[0] != ']' by {
        assert(l[i].0 <= l[i].1);
        lemma_parse_range(l[i], Seq::empty());
    }
    lemma_parse_list_of_joined(l, f_ser_range(), f_parse_range(), rest);
}

/// Reading the emission of a list of OpenVPN descriptors, bracket-closed,
/// gives them back.
pub proof fn lemma_openvpn_list(l: Seq<OpenVpnEndpointData>, rest: Seq<char>)
    ensures
        parse_list(joined(l, f_ser_openvpn()) + seq![']'] + rest, f_parse_openvpn()) == Some(
            (l, rest),
        ),
{
    assert forall|i: int, r: Seq<char>|
        0 <= i < l.len() implies #[trigger] f_parse_openvpn()(f_ser_openvpn()(l[i]) + r) == Some(
        (l[i], r),
    ) by {
        lemma_parse_openvpn(l[i], r);
    }
    assert forall|i: int| 0 <= i < l.len() implies (#[trigger] f_ser_openvpn()(l[i])).len() >= 1
        && f_ser_openvpn()(l[i])[0] != ']' by {
        lemma_parse_openvpn(l[i], Seq::empty());
    }
    lemma_parse_list_of_joined(l, f_ser_openvpn(), f_parse_openvpn(), rest);
}

/// Reading an emitted WireGuard descriptor gives it back.
#[verifier::rlimit(100)]
#[verifier::spinoff_prover]
pub proof fn lemma_parse_wireguard(v: WireguardEndpointDataView, rest: Seq<char>)
    requires
        v.is_valid(),
    ensures
        parse_wireguard(ser_wireguard(v) + rest) == Some((v, rest)),
        ser_wireguard(v).len() >= 1,
        ser_wireguard(v)[0] == '{',
{
    reveal(ser_wireguard);
    reveal(parse_wireguard);
    reveal_strlit("{\"port_ranges\":[");
    reveal_strlit("],\"ipv4_gateway\":\"");
    reveal_strlit(",\"ipv4_gateway\":\"");
    reveal_strlit("\",\"ipv6_gateway\":\"");
    reveal_strlit("\",\"public_key\":");
    reveal_strlit("}");
    let t6 = "}"@ + rest;
    let t5 = ser_string(v.public_key) + t6;
    let t4 = "\",\"public_key\":"@ + t5;
    let t3b = ser_ipv6(v.ipv6_gateway) + t4;
    let t3 = "\",\"ipv6_gateway\":\""@ + t3b;
    let t2b = ser_ipv4(v.ipv4_gateway) + t3;
    let t2 = ",\"ipv4_gateway\":\""@ + t2b;
    let ranges_text = joined(v.port_ranges, f_ser_range());
    let t1 = ranges_text + (seq![']'] + t2);
    let s = ser_wireguard(v) + rest;
    assert("],\"ipv4_gateway\":\""@ =~= seq![']'] + ",\"ipv4_gateway\":\""@);
    assert(s =~= "{\"port_ranges\":["@ + t1);
    lemma_parse_lit("{\"port_ranges\":["@, t1);
    lemma_range_list(v.port_ranges, t2);
    assert(t1 =~= ranges_text + seq![']'] + t2);
    assert(parse_list(t1, f_parse_range()) == Some((v.port_ranges, t2)));
    lemma_parse_lit(",\"ipv4_gateway\":\""@, t2b);
    assert(t3[0] == '"');
    lemma_parse_ipv4(v.ipv4_gateway, t3);
    lemma_parse_lit("\",\"ipv6_gateway\":\""@, t3b);
    assert(t4[0] == '"');
    lemma_parse_ipv6(v.ipv6_gateway, t4);
    lemma_parse_lit("\",\"public_key\":"@, t5);
    lemma_parse_string(v.public_key, t6);
    lemma_parse_lit("}"@, rest);
    assert(ser_wireguard(v)[0] == "{\"port_ranges\":["@[0]);
}

/// Reading the emission of a list of WireGuard descriptors, bracket-closed,
/// gives them back.
pub proof fn lemma_wireguard_list(l: Seq<WireguardEndpointDataView>, rest: Seq<char>)
    requires
        forall|i: int| 0 <= i < l.len() ==> (#[trigger] l[i]).is_valid(),
    ensures
        parse_list(joined(l, f_ser_wireguard()) + seq![']'] + rest, f_parse_wireguard()) == Some(
            (l, rest),
        ),
{
    assert forall|i: int, r: Seq<char>|
        0 <= i < l.len() implies #[trigger] f_parse_wireguard()(f_ser_wireguard()(l[i]) + r)
        == Some((l[i], r)) by {
        assert(l[i].is_valid());
        lemma_parse_wireguard(l[i], r);
    }
    assert forall|i: int| 0 <= i < l.len() implies (#[trigger] f_ser_wireguard()(l[i])).len() >= 1
        && f_ser_wireguard()(l[i])[0] != ']' by {
        assert(l[i].is_valid());
        lemma_parse_wireguard(l[i], Seq::empty());
    }
    lemma_parse_list_of_joined(l, f_ser_wireguard(), f_parse_wireguard(), rest);
}

/// Reading the emission of a list of Shadowsocks descriptors,
/// bracket-closed, gives them back.
pub proof fn lemma_shadowsocks_list(l: Seq<ShadowsocksEndpointDataView>, rest: Seq<char>)
    ensures
        parse_list(joined(l, f_ser_shadowsocks()) + seq![']'] + rest, f_parse_shadowsocks())
            == Some((l, rest)),
{
    assert forall|i: int, r: Seq<char>|
        0 <= i < l.len() implies #[trigger] f_parse_shadowsocks()(f_ser_shadowsocks()(l[i]) + r)
        == Some((l[i], r)) by {
        lemma_parse_shadowsocks(l[i], r);
    }
    assert forall|i: int| 0 <= i < l.len() implies (#[trigger] f_ser_shadowsocks()(
        l[i],
    )).len() >= 1 && f_ser_shadowsocks()(l[i])[0] != ']' by {
        lemma_parse_shadowsocks(l[i], Seq::empty());
    }
    lemma_parse_list_of_joined(l, f_ser_shadowsocks(), f_parse_shadowsocks(), rest);
}

/// Reading an emitted tunnel set gives it back.
#[verifier::rlimit(100)]
#[verifier::spinoff_prover]
pub proof fn lemma_parse_tunnels(t: RelayTunnelsView, rest: Seq<char>)
    requires
        forall|i: int| 0 <= i < t.wireguard.len() ==> (#[trigger] t.wireguard[i]).is_valid(),
    ensures
        parse_tunnels(ser_tunnels(t) + rest) == Some((t, rest)),
        ser_tunnels(t).len() >= 1,
        ser_tunnels(t)[0] == '{',
{
    reveal(ser_tunnels);
    reveal(parse_tunnels);
    reveal_strlit("{\"openvpn\":[");
    reveal_strlit("],\"wireguard\":[");
    reveal_strlit(",\"wireguard\":[");
    reveal_strlit("]}");
    reveal_strlit("}");
    let ovs_text = joined(t.openvpn, f_ser_openvpn());
    let wgs_text = joined(t.wireguard, f_ser_wireguard());
    let t4 = "}"@ + rest;
    let t3 = wgs_text + (seq![']'] + t4);
    let t2 = ",\"wireguard\":["@ + t3;
    let t1 = ovs_text + (seq![']'] + t2);
    let s = ser_tunnels(t) + rest;
    assert("],\"wireguard\":["@ =~= seq![']'] + ",\"wireguard\":["@);
    assert("]}"@ =~= seq![']'] + "}"@);
    assert(s =~= "{\"openvpn\":["@ + t1);
    lemma_parse_lit("{\"openvpn\":["@, t1);
    lemma_openvpn_list(t.openvpn, t2);
    assert(t1 =~= ovs_text + seq![']'] + t2);
    assert(parse_list(t1, f_parse_openvpn()) == Some((t.openvpn, t2)));
    lemma_parse_lit(",\"wireguard\":["@, t3);
    lemma_wireguard_list(t.wireguard, t4);
    assert(t3 =~= wgs_text + seq![']'] + t4);
    assert(parse_list(t3, f_parse_wireguard()) == Some((t.wireguard, t4)));
    lemma_parse_lit("}"@, rest);
    assert(RelayTunnelsView { openvpn: t.openvpn, wireguard: t.wireguard } == t);
    assert(ser_tunnels(t)[0] == "{\"openvpn\":["@[0]);
}

/// Reading an emitted bridge set gives it back.
#[verifier::rlimit(100)]
#[verifier::spinoff_prover]
pub proof fn lemma_parse_bridges(b: RelayBridgesView, rest: Seq<char>)
    ensures
        parse_bridges(ser_bridges(b) + rest) == Some((b, rest)),
        ser_bridges(b).len() >= 1,
        ser_bridges(b)[0] == '{',
{
    reveal(ser_bridges);
    reveal(parse_bridges);
    reveal_strlit("{\"shadowsocks\":[");
    reveal_strlit("]}");
    reveal_strlit("}");
    let ss_text = joined(b.shadowsocks, f_ser_shadowsocks());
    let t2 = "}"@ + rest;
    let t1 = ss_text + (seq![']'] + t2);
    let s = ser_bridges(b) + rest;
    assert("]}"@ =~= seq![']'] + "}"@);
    assert(s =~= "{\"shadowsocks\":["@ + t1);
    lemma_parse_lit("{\"shadowsocks\":["@, t1);
    lemma_shadowsocks_list(b.shadowsocks, t2);
    assert(t1 =~= ss_text + seq![']'] + t2);
    assert(parse_list(t1, f_parse_shadowsocks()) == Some((b.shadowsocks, t2)));
    lemma_parse_lit("}"@, rest);
    assert(RelayBridgesView { shadowsocks: b.shadowsocks } == b);
    assert(ser_bridges(b)[0] == "{\"shadowsocks\":["@[0]);
}

} // verus!

verus! {

/// Reading an emitted relay gives it back: present keys are read, omitted
/// keys leave their sets empty, and the location stays absent.
#[verifier::rlimit(100)]
#[verifier::spinoff_prover]
pub proof fn lemma_parse_relay(v: RelayView, rest: Seq<char>)
    requires
        v.is_valid(),
    ensures
        parse_relay(ser_relay(v) + rest) == Some((v, rest)),
        ser_relay(v).len() >= 1,
        ser_relay(v)[0] == '{',
{
    reveal(ser_relay);
    reveal(parse_relay);
    reveal(parse_relay_opts);
    reveal(ser_tunnels);
    reveal(ser_bridges);
    reveal_strlit("{\"hostname\":");
    reveal_strlit(",\"ipv4_addr_in\":\"");
    reveal_strlit("\",\"include_in_country\":");
    reveal_strlit(",\"weight\":");
    reveal_strlit(",\"tunnels\":");
    reveal_strlit(",\"bridges\":");
    reveal_strlit("}");
    let tun_lit = ",\"tunnels\":"@;
    let br_lit = ",\"bridges\":"@;
    let opt_t = if !v.tunnels.is_empty() {
        tun_lit + ser_tunnels(v.tunnels)
    } else {
        Seq::<char>::empty()
    };
    let opt_b = if !v.bridges.is_empty() {
        br_lit + ser_bridges(v.bridges)
    } else {
        Seq::<char>::empty()
    };
    let t8 = opt_t + (opt_b + ("}"@ + rest));
    let t7 = numeral(v.weight as nat, 10) + t8;
    let t6 = ",\"weight\":"@ + t7;
    let t5 = ser_bool(v.include_in_country) + t6;
    let t4 = "\",\"include_in_country\":"@ + t5;
    let t3 = ser_ipv4(v.ipv4_addr_in) + t4;
    let t2 = ",\"ipv4_addr_in\":\""@ + t3;
    let t1 = ser_string(v.hostname) + t2;
    let s = ser_relay(v) + rest;
    assert(s =~= "{\"hostname\":"@ + t1);
    lemma_parse_lit("{\"hostname\":"@, t1);
    lemma_parse_string(v.hostname, t2);
    lemma_parse_lit(",\"ipv4_addr_in\":\""@, t3);
    assert(t4[0] == '"');
    lemma_parse_ipv4(v.ipv4_addr_in, t4);
    lemma_parse_lit("\",\"include_in_country\":"@, t5);
    lemma_parse_bool(v.include_in_country, t6);
    lemma_parse_lit(",\"weight\":"@, t7);
    if !v.tunnels.is_empty() {
        assert(t8[0] == ',');
    } else if !v.bridges.is_empty() {
        assert(t8 =~= opt_b + ("}"@ + rest));
        assert(t8[0] == ',');
    } else {
        assert(t8 =~= "}"@ + rest);
        assert(t8[0] == '}');
    }
    lemma_parse_nat_of_numeral(v.weight as nat, 10, 18446744073709551615, t8);
    let close = "}"@ + rest;
    assert(close[0] == '}');
    assert(close.skip(1) =~= rest);
    if !v.tunnels.is_empty() {
        let after_t = opt_b + close;
        assert(t8 =~= tun_lit + (ser_tunnels(v.tunnels) + after_t));
        lemma_parse_lit(tun_lit, ser_tunnels(v.tunnels) + after_t);
        lemma_parse_tunnels(v.tunnels, after_t);
        if !v.bridges.is_empty() {
            assert(after_t =~= br_lit + (ser_bridges(v.bridges) + close));
            lemma_parse_lit(br_lit, ser_bridges(v.bridges) + close);
            lemma_parse_bridges(v.bridges, close);
        } else {
            assert(after_t =~= close);
            assert(after_t[0] == '}');
            assert(br_lit[0] == ',');
            if after_t.len() >= br_lit.len() {
                assert(after_t.subrange(0, br_lit.len() as int)[0] == after_t[0]);
                assert(after_t.subrange(0, br_lit.len() as int) != br_lit);
            }
            assert(parse_lit(after_t, br_lit) is None);
            assert(after_t.skip(1) =~= rest);
            assert(v.bridges.shadowsocks =~= Seq::<ShadowsocksEndpointDataView>::empty());
            assert(v.bridges == empty_bridges());
        }
    } else {
        assert(v.tunnels.openvpn =~= Seq::<OpenVpnEndpointData>::empty());
        assert(v.tunnels.wireguard =~= Seq::<WireguardEndpointDataView>::empty());
        assert(v.tunnels == empty_tunnels());
        if !v.bridges.is_empty() {
            assert(t8 =~= br_lit + (ser_bridges(v.bridges) + close));
            assert(t8[2] == br_lit[2]);
            assert(t8[2] == 'b');
            assert(tun_lit[2] == 't');
            if t8.len() >= tun_lit.len() {
                assert(t8.subrange(0, tun_lit.len() as int)[2] == t8[2]);
                assert(t8.subrange(0, tun_lit.len() as int) != tun_lit);
            }
            assert(parse_lit(t8, tun_lit) is None);
            lemma_parse_lit(br_lit, ser_bridges(v.bridges) + close);
            lemma_parse_bridges(v.bridges, close);
        } else {
            assert(t8 =~= close);
            assert(t8[0] == '}');
            assert(tun_lit[0] == ',');
            assert(br_lit[0] == ',');
            if t8.len() >= tun_lit.len() {
                assert(t8.subrange(0, tun_lit.len() as int)[0] == t8[0]);
                assert(t8.subrange(0, tun_lit.len() as int) != tun_lit);
            }
            assert(parse_lit(t8, tun_lit) is None);
            if t8.len() >= br_lit.len() {
                assert(t8.subrange(0, br_lit.len() as int)[0] == t8[0]);
                assert(t8.subrange(0, br_lit.len() as int) != br_lit);
            }
            assert(parse_lit(t8, br_lit) is None);
            assert(t8.skip(1) =~= rest);
            assert(v.bridges.shadowsocks =~= Seq::<ShadowsocksEndpointDataView>::empty());
            assert(v.bridges == empty_bridges());
        }
    }
    assert(v.location is None);
    assert(RelayView {
        hostname: v.hostname,
        ipv4_addr_in: v.ipv4_addr_in,
        include_in_country: v.include_in_country,
        weight: v.weight,
        tunnels: v.tunnels,
        bridges: v.bridges,
        location: None,
    } == v);
    assert(ser_relay(v)[0] == "{\"hostname\":"@[0]);
}

/// Reading the emission of a list of relays, bracket-closed, gives them
/// back.
pub proof fn lemma_relay_list(l: Seq<RelayView>, rest: Seq<char>)
    requires
        forall|i: int| 0 <= i < l.len() ==> (#[trigger] l[i]).is_valid(),
    ensures
        parse_list(joined(l, f_ser_relay()) + seq![']'] + rest, f_parse_relay()) == Some((l, rest)),
{
    assert forall|i: int, r: Seq<char>|
        0 <= i < l.len() implies #[trigger] f_parse_relay()(f_ser_relay()(l[i]) + r) == Some(
        (l[i], r),
    ) by {
        assert(l[i].is_valid());
        lemma_parse_relay(l[i], r);
    }
    assert forall|i: int| 0 <= i < l.len() implies (#[trigger] f_ser_relay()(l[i])).len() >= 1
        && f_ser_relay()(l[i])[0] != ']' by {
        assert(l[i].is_valid());
        lemma_parse_relay(l[i], Seq::empty());
    }
    lemma_parse_list_of_joined(l, f_ser_relay(), f_parse_relay(), rest);
}

/// Reading an emitted city gives it back.
#[verifier::rlimit(100)]
#[verifier::spinoff_prover]
pub proof fn lemma_parse_city(v: RelayListCityView, rest: Seq<char>)
    requires
        v.is_valid(),
    ensures
        parse_city(ser_city(v) + rest) == Some((v, rest)),
        ser_city(v).len() >= 1,
        ser_city(v)[0] == '{',
{
    reveal(ser_city);
    reveal(parse_city);
    reveal_strlit("{\"name\":");
    reveal_strlit(",\"code\":");
    reveal_strlit(",\"latitude\":");
    reveal_strlit(",\"longitude\":");
    reveal_strlit(",\"relays\":[");
    reveal_strlit("]}");
    reveal_strlit("}");
    let relays_text = joined(v.relays, f_ser_relay());
    let t10 = "}"@ + rest;
    let t9 = relays_text + (seq![']'] + t10);
    let t8 = ",\"relays\":["@ + t9;
    let t7 = ser_coordinate(v.longitude) + t8;
    let t6 = ",\"longitude\":"@ + t7;
    let t5 = ser_coordinate(v.latitude) + t6;
    let t4 = ",\"latitude\":"@ + t5;
    let t3 = ser_string(v.code) + t4;
    let t2 = ",\"code\":"@ + t3;
    let t1 = ser_string(v.name) + t2;
    let s = ser_city(v) + rest;
    assert("]}"@ =~= seq![']'] + "}"@);
    assert(s =~= "{\"name\":"@ + t1);
    lemma_parse_lit("{\"name\":"@, t1);
    lemma_parse_string(v.name, t2);
    lemma_parse_lit(",\"code\":"@, t3);
    lemma_parse_string(v.code, t4);
    lemma_parse_lit(",\"latitude\":"@, t5);
    assert(t6[0] == ',');
    lemma_parse_coordinate(v.latitude, t6);
    lemma_parse_lit(",\"longitude\":"@, t7);
    assert(t8[0] == ',');
    lemma_parse_coordinate(v.longitude, t8);
    lemma_parse_lit(",\"relays\":["@, t9);
    lemma_relay_list(v.relays, t10);
    assert(t9 =~= relays_text + seq![']'] + t10);
    assert(parse_list(t9, f_parse_relay()) == Some((v.relays, t10)));
    lemma_parse_lit("}"@, rest);
    assert(RelayListCityView {
        name: v.name,
        code: v.code,
        latitude: v.latitude,
        longitude: v.longitude,
        relays: v.relays,
    } == v);
    assert(ser_city(v)[0] == "{\"name\":"@[0]);
}

/// Reading the emission of a list of cities, bracket-closed, gives them
/// back.
pub proof fn lemma_city_list(l: Seq<RelayListCityView>, rest: Seq<char>)
    requires
        forall|i: int| 0 <= i < l.len() ==> (#[trigger] l[i]).is_valid(),
    ensures
        parse_list(joined(l, f_ser_city()) + seq![']'] + rest, f_parse_city()) == Some((l, rest)),
{
    assert forall|i: int, r: Seq<char>|
        0 <= i < l.len() implies #[trigger] f_parse_city()(f_ser_city()(l[i]) + r) == Some(
        (l[i], r),
    ) by {
        assert(l[i].is_valid());
        lemma_parse_city(l[i], r);
    }
    assert forall|i: int| 0 <= i < l.len() implies (#[trigger] f_ser_city()(l[i])).len() >= 1
        && f_ser_city()(l[i])[0] != ']' by {
        assert(l[i].is_valid());
        lemma_parse_city(l[i], Seq::empty());
    }
    lemma_parse_list_of_joined(l, f_ser_city(), f_parse_city(), rest);
}

/// Reading an emitted country gives it back.
#[verifier::rlimit(100)]
#[verifier::spinoff_prover]
pub proof fn lemma_parse_country(v: RelayListCountryView, rest: Seq<char>)
    requires
        v.is_valid(),
    ensures
        parse_country(ser_country(v) + rest) == Some((v, rest)),
        ser_country(v).len() >= 1,
        ser_country(v)[0] == '{',
{
    reveal(ser_country);
    reveal(parse_country);
    reveal_strlit("{\"name\":");
    reveal_strlit(",\"code\":");
    reveal_strlit(",\"cities\":[");
    reveal_strlit("]}");
    reveal_strlit("}");
    let cities_text = joined(v.cities, f_ser_city());
    let t6 = "}"@ + rest;
    let t5 = cities_text + (seq![']'] + t6);
    let t4 = ",\"cities\":["@ + t5;
    let t3 = ser_string(v.code) + t4;
    let t2 = ",\"code\":"@ + t3;
    let t1 = ser_string(v.name) + t2;
    let s = ser_country(v) + rest;
    assert("]}"@ =~= seq![']'] + "}"@);
    assert(s =~= "{\"name\":"@ + t1);
    lemma_parse_lit("{\"name\":"@, t1);
    lemma_parse_string(v.name, t2);
    lemma_parse_lit(",\"code\":"@, t3);
    lemma_parse_string(v.code, t4);
    lemma_parse_lit(",\"cities\":["@, t5);
    lemma_city_list(v.cities, t6);
    assert(t5 =~= cities_text + seq![']'] + t6);
    assert(parse_list(t5, f_parse_city()) == Some((v.cities, t6)));
    lemma_parse_lit("}"@, rest);
    assert(RelayListCountryView { name: v.name, code: v.code, cities: v.cities } == v);
    assert(ser_country(v)[0] == "{\"name\":"@[0]);
}

/// Reading the emission of a list of countries, bracket-closed, gives them
/// back.
pub proof fn lemma_country_list(l: Seq<RelayListCountryView>, rest: Seq<char>)
    requires
        forall|i: int| 0 <= i < l.len() ==> (#[trigger] l[i]).is_valid(),
    ensures
        parse_list(joined(l, f_ser_country()) + seq![']'] + rest, f_parse_country()) == Some(
            (l, rest),
        ),
{
    assert forall|i: int, r: Seq<char>|
        0 <= i < l.len() implies #[trigger] f_parse_country()(f_ser_country()(l[i]) + r) == Some(
        (l[i], r),
    ) by {
        assert(l[i].is_valid());
        lemma_parse_country(l[i], r);
    }
    assert forall|i: int| 0 <= i < l.len() implies (#[trigger] f_ser_country()(l[i])).len() >= 1
        && f_ser_country()(l[i])[0] != ']' by {
        assert(l[i].is_valid());
        lemma_parse_country(l[i], Seq::empty());
    }
    lemma_parse_list_of_joined(l, f_ser_country(), f_parse_country(), rest);
}

/// Reading an emitted catalog gives it back.
#[verifier::rlimit(100)]
#[verifier::spinoff_prover]
pub proof fn lemma_parse_catalog(v: RelayListView, rest: Seq<char>)
    requires
        v.is_valid(),
    ensures
        parse_catalog(ser_catalog(v) + rest) == Some((v, rest)),
{
    reveal(ser_catalog);
    reveal(parse_catalog);
    reveal_strlit("{\"countries\":[");
    reveal_strlit("]}");
    reveal_strlit("}");
    let countries_text = joined(v.countries, f_ser_country());
    let t2 = "}"@ + rest;
    let t1 = countries_text + (seq![']'] + t2);
    let s = ser_catalog(v) + rest;
    assert("]}"@ =~= seq![']'] + "}"@);
    assert(s =~= "{\"countries\":["@ + t1);
    lemma_parse_lit("{\"countries\":["@, t1);
    lemma_country_list(v.countries, t2);
    assert(t1 =~= countries_text + seq![']'] + t2);
    assert(parse_list(t1, f_parse_country()) == Some((v.countries, t2)));
    lemma_parse_lit("}"@, rest);
    assert(RelayListView { countries: v.countries } == v);
}

} // verus!

verus! {

/// Splitting an exponent splits the power.
pub proof fn lemma_base_pow_add(base: nat, a: nat, b: nat)
    ensures
        base_pow(base, a + b) == base_pow(base, a) * base_pow(base, b),
    decreases a,
{
    if a == 0 {
        assert(a + b == b);
        assert(base_pow(base, a) == 1);
    } else {
        lemma_base_pow_add(base, (a - 1) as nat, b);
        let pa1 = base_pow(base, (a - 1) as nat);
        let pb = base_pow(base, b);
        assert(base_pow(base, (a - 1) as nat + b) == pa1 * pb);
        assert(((a + b) - 1) as nat == (a - 1) as nat + b);
        assert(base_pow(base, a + b) == base * base_pow(base, (a - 1) as nat + b));
        assert(base_pow(base, a) == base * pa1);
        assert(base * (pa1 * pb) == (base * pa1) * pb) by (nonlinear_arith);
        assert(base_pow(base, a + b) == base_pow(base, a) * pb);
    }
}

/// Every character of a digit prefix is a digit.
pub proof fn lemma_digits_prefix_digits(s: Seq<char>, base: nat)
    ensures
        forall|i: int|
            0 <= i < digits_prefix(s, base).len() ==> is_digit(
                #[trigger] digits_prefix(s, base)[i],
                base,
            ),
    decreases s.len(),
{
    if s.len() > 0 && is_digit(s[0], base) {
        lemma_digits_prefix_digits(s.skip(1), base);
        assert forall|i: int| 0 <= i < digits_prefix(s, base).len() implies is_digit(
            #[trigger] digits_prefix(s, base)[i],
            base,
        ) by {
            if i > 0 {
                assert(digits_prefix(s, base)[i] == digits_prefix(s.skip(1), base)[i - 1]);
            }
        }
    }
}

/// A parsed coordinate lies within the wire's range.
pub proof fn lemma_parse_coordinate_valid(s: Seq<char>)
    ensures
        parse_coordinate(s) matches Some(p) ==> p.0.is_valid(),
{
    if parse_coordinate(s) is Some {
        let inner = if s.len() > 0 && s[0] == '-' {
            s.skip(1)
        } else {
            s
        };
        let (m, r) = parse_coord_mag(inner)->Some_0;
        let (ip, r1) = parse_nat(inner, 10, 999)->Some_0;
        if r1.len() > 0 && r1[0] == '.' {
            let ds = digits_prefix(r1.skip(1), 10);
            let f = val_of(ds, 10) * base_pow(10, (6 - ds.len()) as nat);
            lemma_digits_prefix_digits(r1.skip(1), 10);
            lemma_val_of_bound(ds, 10);
            let pa = base_pow(10, ds.len());
            let pb = base_pow(10, (6 - ds.len()) as nat);
            lemma_base_pow_add(10, ds.len(), (6 - ds.len()) as nat);
            assert(base_pow(10, 6) == 1000000) by {
                assert(base_pow(10, 0) == 1);
                assert(base_pow(10, 1) == 10);
                assert(base_pow(10, 2) == 100);
                assert(base_pow(10, 3) == 1000);
                assert(base_pow(10, 4) == 10000);
                assert(base_pow(10, 5) == 100000);
                assert(base_pow(10, 6) == 1000000);
            }
            assert(val_of(ds, 10) * pb <= (pa - 1) * pb) by (nonlinear_arith)
                requires
                    val_of(ds, 10) < pa,
                    pb >= 0,
            ;
            assert((pa - 1) * pb == pa * pb - pb) by (nonlinear_arith);
            assert(pb >= 1) by {
                if (6 - ds.len()) as nat == 0 {
                } else {
                }
                assert(base_pow(10, 0) == 1);
                assert(base_pow(10, 1) == 10);
                assert(base_pow(10, 2) == 100);
                assert(base_pow(10, 3) == 1000);
                assert(base_pow(10, 4) == 10000);
                assert(base_pow(10, 5) == 100000);
            }
            assert(f < 1000000);
            assert(ip * 1000000 <= 999000000) by (nonlinear_arith)
                requires
                    ip <= 999,
            ;
            assert(m < 1000000000);
        } else {
            assert(ip * 1000000 <= 999000000) by (nonlinear_arith)
                requires
                    ip <= 999,
            ;
            assert(m < 1000000000);
        }
    }
}

/// A parsed port range keeps its low bound at or below its high bound.
pub proof fn lemma_parse_range_valid(s: Seq<char>)
    ensures
        parse_range(s) matches Some(p) ==> p.0.0 <= p.0.1,
{
    reveal(parse_range);
}

/// A parsed WireGuard descriptor is valid.
pub proof fn lemma_parse_wireguard_valid(s: Seq<char>)
    ensures
        parse_wireguard(s) matches Some(p) ==> p.0.is_valid(),
{
    reveal(parse_wireguard);
    if parse_wireguard(s) is Some {
        let r1 = parse_lit(s, "{\"port_ranges\":["@)->Some_0;
        assert forall|s2: Seq<char>| (#[trigger] f_parse_range()(s2)) is Some implies (|v: (
            u16,
            u16,
        )| v.0 <= v.1)(f_parse_range()(s2)->Some_0.0) by {
            lemma_parse_range_valid(s2);
        }
        lemma_parse_list_elems(r1, f_parse_range(), |v: (u16, u16)| v.0 <= v.1);
    }
}

/// A parsed tunnel set is valid.
pub proof fn lemma_parse_tunnels_valid(s: Seq<char>)
    ensures
        parse_tunnels(s) matches Some(p) ==> forall|i: int|
            0 <= i < p.0.wireguard.len() ==> (#[trigger] p.0.wireguard[i]).is_valid(),
{
    reveal(parse_tunnels);
    if parse_tunnels(s) is Some {
        let r1 = parse_lit(s, "{\"openvpn\":["@)->Some_0;
        let r2 = parse_list(r1, f_parse_openvpn())->Some_0.1;
        let r3 = parse_lit(r2, ",\"wireguard\":["@)->Some_0;
        assert forall|s2: Seq<char>| (#[trigger] f_parse_wireguard()(s2)) is Some implies (|v:
            WireguardEndpointDataView| v.is_valid())(f_parse_wireguard()(s2)->Some_0.0) by {
            lemma_parse_wireguard_valid(s2);
        }
        lemma_parse_list_elems(r3, f_parse_wireguard(), |v: WireguardEndpointDataView| v.is_valid());
    }
}

/// A parsed relay is valid: its WireGuard ranges are ordered and its
/// location is absent.
pub proof fn lemma_parse_relay_valid(s: Seq<char>)
    ensures
        parse_relay(s) matches Some(p) ==> p.0.is_valid(),
{
    reveal(parse_relay);
    reveal(parse_relay_opts);
    if parse_relay(s) is Some {
        let r1 = parse_lit(s, "{\"hostname\":"@)->Some_0;
        let r2 = parse_string(r1)->Some_0.1;
        let r3 = parse_lit(r2, ",\"ipv4_addr_in\":\""@)->Some_0;
        let r4 = parse_ipv4(r3)->Some_0.1;
        let r5 = parse_lit(r4, "\",\"include_in_country\":"@)->Some_0;
        let r6 = parse_bool(r5)->Some_0.1;
        let r7 = parse_lit(r6, ",\"weight\":"@)->Some_0;
        let r8 = parse_nat(r7, 10, 18446744073709551615)->Some_0.1;
        match parse_lit(r8, ",\"tunnels\":"@) {
            Some(q1) => {
                lemma_parse_tunnels_valid(q1);
            },
            None => {
            },
        }
    }
}

/// A parsed city is valid.
pub proof fn lemma_parse_city_valid(s: Seq<char>)
    ensures
        parse_city(s) matches Some(p) ==> p.0.is_valid(),
{
    reveal(parse_city);
    if parse_city(s) is Some {
        let r1 = parse_lit(s, "{\"name\":"@)->Some_0;
        let r2 = parse_string(r1)->Some_0.1;
        let r3 = parse_lit(r2, ",\"code\":"@)->Some_0;
        let r4 = parse_string(r3)->Some_0.1;
        let r5 = parse_lit(r4, ",\"latitude\":"@)->Some_0;
        lemma_parse_coordinate_valid(r5);
        let r6 = parse_coordinate(r5)->Some_0.1;
        let r7 = parse_lit(r6, ",\"longitude\":"@)->Some_0;
        lemma_parse_coordinate_valid(r7);
        let r8 = parse_coordinate(r7)->Some_0.1;
        let r9 = parse_lit(r8, ",\"relays\":["@)->Some_0;
        assert forall|s2: Seq<char>| (#[trigger] f_parse_relay()(s2)) is Some implies (|v:
            RelayView| v.is_valid())(f_parse_relay()(s2)->Some_0.0) by {
            lemma_parse_relay_valid(s2);
        }
        lemma_parse_list_elems(r9, f_parse_relay(), |v: RelayView| v.is_valid());
    }
}

/// A parsed country is valid.
pub proof fn lemma_parse_country_valid(s: Seq<char>)
    ensures
        parse_country(s) matches Some(p) ==> p.0.is_valid(),
{
    reveal(parse_country);
    if parse_country(s) is Some {
        let r1 = parse_lit(s, "{\"name\":"@)->Some_0;
        let r2 = parse_string(r1)->Some_0.1;
        let r3 = parse_lit(r2, ",\"code\":"@)->Some_0;
        let r4 = parse_string(r3)->Some_0.1;
        let r5 = parse_lit(r4, ",\"cities\":["@)->Some_0;
        assert forall|s2: Seq<char>| (#[trigger] f_parse_city()(s2)) is Some implies (|v:
            RelayListCityView| v.is_valid())(f_parse_city()(s2)->Some_0.0) by {
            lemma_parse_city_valid(s2);
        }
        lemma_parse_list_elems(r5, f_parse_city(), |v: RelayListCityView| v.is_valid());
    }
}

/// A parsed catalog is valid: what deserialization accepts always satisfies
/// the wire's invariants, the ordered port ranges among them.
pub proof fn lemma_parse_catalog_valid(s: Seq<char>)
    ensures
        parse_catalog(s) matches Some(p) ==> p.0.is_valid(),
{
    reveal(parse_catalog);
    if parse_catalog(s) is Some {
        let r1 = parse_lit(s, "{\"countries\":["@)->Some_0;
        assert forall|s2: Seq<char>| (#[trigger] f_parse_country()(s2)) is Some implies (|v:
            RelayListCountryView| v.is_valid())(f_parse_country()(s2)->Some_0.0) by {
            lemma_parse_country_valid(s2);
        }
        lemma_parse_list_elems(r1, f_parse_country(), |v: RelayListCountryView| v.is_valid());
    }
}

} // verus!

verus! {

/// Emitting one more character extends a string body's emission.
pub proof fn lemma_ser_string_body_push(v: Seq<char>, c: char)
    ensures
        ser_string_body(v.push(c)) == ser_string_body(v) + escape_char(c),
    decreases v.len(),
{
    if v.len() == 0 {
        assert(v.push(c)[0] == c);
        assert(v.push(c).skip(1) =~= Seq::<char>::empty());
        assert(v.push(c).len() == 1);
        assert(ser_string_body(v.push(c)) == escape_char(c) + ser_string_body(
            v.push(c).skip(1),
        ));
        assert(ser_string_body(Seq::<char>::empty()) == Seq::<char>::empty());
        assert(ser_string_body(v) == Seq::<char>::empty());
        assert(ser_string_body(v.push(c)) =~= ser_string_body(v) + escape_char(c));
    } else {
        assert(v.push(c).skip(1) =~= v.skip(1).push(c));
        lemma_ser_string_body_push(v.skip(1), c);
        assert(v.push(c)[0] == v[0]);
        assert(ser_string_body(v.push(c)) == escape_char(v[0]) + (ser_string_body(v.skip(1))
            + escape_char(c)));
        assert(escape_char(v[0]) + (ser_string_body(v.skip(1)) + escape_char(c)) =~= (escape_char(
            v[0],
        ) + ser_string_body(v.skip(1))) + escape_char(c));
    }
}

/// Emitting one more element extends a list's emission, with a comma before
/// every element but the first.
pub proof fn lemma_more_text_push<T>(l: Seq<T>, f: spec_fn(T) -> Seq<char>, x: T)
    ensures
        more_text(l.push(x), f) == more_text(l, f) + seq![','] + f(x),
    decreases l.len(),
{
    if l.len() == 0 {
        assert(l.push(x)[0] == x);
        assert(l.push(x).skip(1) =~= Seq::<T>::empty());
        assert(l.push(x).len() == 1);
        assert(more_text(l.push(x), f) == seq![','] + f(x) + more_text(l.push(x).skip(1), f));
        assert(more_text(Seq::<T>::empty(), f) == Seq::<char>::empty());
        assert(more_text(l, f) == Seq::<char>::empty());
        assert(more_text(l.push(x), f) =~= more_text(l, f) + seq![','] + f(x));
    } else {
        assert(l.push(x).skip(1) =~= l.skip(1).push(x));
        lemma_more_text_push(l.skip(1), f, x);
        assert(l.push(x)[0] == l[0]);
        assert(more_text(l.push(x), f) == seq![','] + f(l[0]) + (more_text(l.skip(1), f)
            + seq![','] + f(x)));
        assert(seq![','] + f(l[0]) + (more_text(l.skip(1), f) + seq![','] + f(x)) =~= ((seq![',']
            + f(l[0]) + more_text(l.skip(1), f)) + seq![',']) + f(x));
    }
}

/// As [`lemma_more_text_push`], for a whole list.
pub proof fn lemma_joined_push<T>(l: Seq<T>, f: spec_fn(T) -> Seq<char>, x: T)
    ensures
        joined(l.push(x), f) == joined(l, f) + (if l.len() == 0 {
            Seq::<char>::empty()
        } else {
            seq![',']
        }) + f(x),
{
    if l.len() == 0 {
        assert(l.push(x)[0] == x);
        assert(l.push(x).skip(1) =~= Seq::<T>::empty());
        assert(joined(l.push(x), f) =~= joined(l, f) + Seq::<char>::empty() + f(x));
    } else {
        assert(l.push(x).skip(1) =~= l.skip(1).push(x));
        lemma_more_text_push(l.skip(1), f, x);
        assert(l.push(x)[0] == l[0]);
        assert(joined(l.push(x), f) == f(l[0]) + (more_text(l.skip(1), f) + seq![','] + f(x)));
        assert(f(l[0]) + (more_text(l.skip(1), f) + seq![','] + f(x)) =~= ((f(l[0]) + more_text(
            l.skip(1),
            f,
        )) + seq![',']) + f(x));
    }
}

} // verus!

verus! {

/// The diagnostic line for an OpenVPN descriptor: protocol and port.
pub open spec fn display_openvpn(v: OpenVpnEndpointData) -> Seq<char> {
    ser_protocol(v.protocol) + " port "@ + numeral(v.port as nat, 10)
}

/// One port range as shown in diagnostics.
pub open spec fn display_range(r: (u16, u16)) -> Seq<char> {
    seq!['['] + numeral(r.0 as nat, 10) + " - "@ + numeral(r.1 as nat, 10) + seq![']']
}

/// The diagnostic form of one port range, as a function value.
pub open spec fn f_display_range() -> spec_fn((u16, u16)) -> Seq<char> {
    |r: (u16, u16)| display_range(r)
}

/// The diagnostic line for a WireGuard descriptor: gateways, port ranges
/// and public key.
pub open spec fn display_wireguard(v: WireguardEndpointDataView) -> Seq<char> {
    "gateways "@ + ser_ipv4(v.ipv4_gateway) + " - "@ + ser_ipv6(v.ipv6_gateway)
        + " port_ranges { "@ + joined(v.port_ranges, f_display_range()) + " } public_key "@
        + v.public_key
}

} // verus!
