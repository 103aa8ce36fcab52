//! The laws the catalog's wire format obeys, proved once and for all.

use vstd::prelude::*;

use crate::catalog::{RelayListCountryView, RelayListView, RelayView};
use crate::numerals::numeral;
use crate::wire::{
    f_ser_country, joined, lemma_parse_catalog, lemma_parse_catalog_valid, lemma_parse_relay,
    parse_catalog, parse_relay, ser_bool, ser_catalog, ser_ipv4, ser_relay, ser_string,
};

verus! {

/// Round trip: every valid catalog value — in particular every catalog that
/// deserialization produces — reads back from its own payload unchanged,
/// with nothing left over. The runtime-only location, absent in every valid
/// value, stays absent throughout.
pub proof fn lemma_round_trip(v: RelayListView)
    requires
        v.is_valid(),
    ensures
        parse_catalog(ser_catalog(v)) == Some((v, Seq::<char>::empty())),
{
    lemma_parse_catalog(v, Seq::empty());
    assert(ser_catalog(v) + Seq::<char>::empty() =~= ser_catalog(v));
}

/// Round trip from a payload: whatever catalog a well-formed payload
/// deserializes to, serializing it and deserializing again yields the very
/// same catalog.
pub proof fn lemma_payload_round_trip(payload: Seq<char>)
    requires
        parse_catalog(payload) matches Some(p) && p.1.len() == 0,
    ensures
        parse_catalog(ser_catalog(parse_catalog(payload)->Some_0.0)) == Some(
            (parse_catalog(payload)->Some_0.0, Seq::<char>::empty()),
        ),
{
    lemma_parse_catalog_valid(payload);
    lemma_round_trip(parse_catalog(payload)->Some_0.0);
}

/// Omit-if-empty: a relay whose tunnel and bridge sets are both empty is
/// written without the `tunnels` and `bridges` keys — its payload is exactly
/// the four base fields — and that key-less payload reads back as the same
/// relay, its sets empty.
pub proof fn lemma_omit_if_empty(v: RelayView)
    requires
        v.is_valid(),
        v.tunnels.is_empty(),
        v.bridges.is_empty(),
    ensures
        ser_relay(v) == "{\"hostname\":"@ + ser_string(v.hostname) + ",\"ipv4_addr_in\":\""@
            + ser_ipv4(v.ipv4_addr_in) + "\",\"include_in_country\":"@ + ser_bool(
            v.include_in_country,
        ) + ",\"weight\":"@ + numeral(v.weight as nat, 10) + "}"@,
        parse_relay(ser_relay(v)) == Some((v, Seq::<char>::empty())),
{
    reveal(ser_relay);
    assert(ser_relay(v) =~= "{\"hostname\":"@ + ser_string(v.hostname) + ",\"ipv4_addr_in\":\""@
        + ser_ipv4(v.ipv4_addr_in) + "\",\"include_in_country\":"@ + ser_bool(
        v.include_in_country,
    ) + ",\"weight\":"@ + numeral(v.weight as nat, 10) + "}"@);
    lemma_parse_relay(v, Seq::empty());
    assert(ser_relay(v) + Seq::<char>::empty() =~= ser_relay(v));
}

/// The empty catalog serializes to exactly `{"countries":[]}`.
pub proof fn lemma_empty_catalog_payload()
    ensures
        ser_catalog(RelayListView { countries: Seq::empty() }) == "{\"countries\":[]}"@,
{
    reveal(ser_catalog);
    reveal_strlit("{\"countries\":[");
    reveal_strlit("]}");
    reveal_strlit("{\"countries\":[]}");
    let v = RelayListView { countries: Seq::<RelayListCountryView>::empty() };
    assert(joined(v.countries, f_ser_country()) == Seq::<char>::empty());
    assert(ser_catalog(v) =~= "{\"countries\":[]}"@);
}

} // verus!
