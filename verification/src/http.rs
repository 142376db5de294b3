//! The HTTP announce codec: decoding of bencoded announce responses with
//! compact and non-compact, IPv4 and IPv6 peer lists, and construction of
//! the announce query string with byte-exact percent-encoding.

use vstd::prelude::*;

use crate::bencode::{deep_view, deep_view_pairs, lemma_deep_view_pairs_index,
    lemma_deep_view_seq_index, lemma_deep_view_seq_len, spec_parse_bvalue, BValue, SpecBValue};
use crate::errors::TrackerError;
use crate::identity::PeerId;
use crate::ip::{spec_parse_ip, PeerIp};
use crate::identity::InfoHash;
use crate::text::{push_char, push_decimal_chars, spec_decimal_chars, spec_hex_char_upper};
use crate::torrent::AnnounceEvent;
use crate::urls::{parse_url_ok, url_parse_ok};
use crate::wire::{read_u16_be, spec_u16_from_be_bytes};
use vstd::string::StringExecFns;

verus! {

/// The field values of one peer record of an announce response.
pub struct SpecPeer {
    pub id: Option<Seq<u8>>,
    pub ip: PeerIp,
    pub port: u16,
}

/// The field values of a decoded announce response.
pub struct SpecAnnounceResponse {
    pub interval: u32,
    pub peers: Seq<SpecPeer>,
    pub peers6: Option<Seq<SpecPeer>>,
}

/// One peer of an HTTP announce response: its optional id (present only
/// in non-compact lists), address and port.
#[derive(Debug, Clone, PartialEq, Eq)]
pub struct HTTPAnnounceResponsePeer {
    pub id: Option<PeerId>,
    pub ip: PeerIp,
    pub port: u16,
}

impl View for HTTPAnnounceResponsePeer {
    type V = SpecPeer;

    open spec fn view(&self) -> SpecPeer {
        SpecPeer {
            id: match self.id {
                Some(p) => Some(p@),
                None => None,
            },
            ip: self.ip,
            port: self.port,
        }
    }
}

/// A decoded HTTP announce response: the re-announce interval, the peer
/// list, and the optional compact IPv6 sibling list.
#[derive(Debug, Clone, PartialEq, Eq)]
pub struct HTTPAnnounceResponse {
    pub interval: u32,
    pub peers: Vec<HTTPAnnounceResponsePeer>,
    pub peers6: Option<Vec<HTTPAnnounceResponsePeer>>,
}

/// The field values of a peer list, in order.
pub open spec fn spec_peer_views(s: Seq<HTTPAnnounceResponsePeer>) -> Seq<SpecPeer> {
    s.map_values(|p: HTTPAnnounceResponsePeer| p@)
}

impl View for HTTPAnnounceResponse {
    type V = SpecAnnounceResponse;

    open spec fn view(&self) -> SpecAnnounceResponse {
        SpecAnnounceResponse {
            interval: self.interval,
            peers: spec_peer_views(self.peers@),
            peers6: match self.peers6 {
                Some(v) => Some(spec_peer_views(v@)),
                None => None,
            },
        }
    }
}

/// The value under the first occurrence of `key` in a dictionary's entry
/// list, if any.
pub open spec fn spec_dict_get(d: Seq<(Seq<u8>, SpecBValue)>, key: Seq<u8>) -> Option<SpecBValue>
    decreases d,
{
    if d.len() == 0 {
        None
    } else if d[0].0 == key {
        Some(d[0].1)
    } else {
        spec_dict_get(d.drop_first(), key)
    }
}

/// Compares two byte strings.
fn bytes_eq(a: &[u8], b: &[u8]) -> (r: bool)
    ensures
        r <==> a@ == b@,
{
    if a.len() != b.len() {
        proof {
            assert(a@.len() != b@.len());
        }
        return false;
    }
    let n = a.len();
    let mut i: usize = 0;
    while i < n
        invariant
            n == a@.len() == b@.len(),
            i <= n,
            forall|k: int| 0 <= k < i ==> a@[k] == b@[k],
        decreases n - i,
    {
        if a[i] != b[i] {
            return false;
        }
        i = i + 1;
    }
    proof {
        assert(a@ =~= b@);
    }
    true
}

/// Looks up the first entry with the given key, exactly as the
/// spec-level lookup does.
fn dict_get<'a>(d: &'a Vec<(Vec<u8>, BValue)>, key: &[u8]) -> (r: Option<&'a BValue>)
    ensures
        r is Some <==> spec_dict_get(deep_view_pairs(d@), key@) is Some,
        r matches Some(x) ==> spec_dict_get(deep_view_pairs(d@), key@) == Some(deep_view(*x)),
{
    let ghost dv = deep_view_pairs(d@);
    proof {
        crate::bencode::lemma_deep_view_pairs_len(d@);
        assert(dv.skip(0) =~= dv);
    }
    let n = d.len();
    let mut k: usize = 0;
    while k < n
        invariant
            n == d@.len(),
            dv == deep_view_pairs(d@),
            dv.len() == n,
            k <= n,
            spec_dict_get(dv, key@) == spec_dict_get(dv.skip(k as int), key@),
        decreases n - k,
    {
        proof {
            lemma_deep_view_pairs_index(d@, k as int);
            assert(dv.skip(k as int)[0] == dv[k as int]);
        }
        if bytes_eq(d[k].0.as_slice(), key) {
            return Some(&d[k].1);
        }
        proof {
            assert(dv.skip(k as int).drop_first() =~= dv.skip(k + 1));
        }
        k = k + 1;
    }
    proof {
        assert(dv.skip(n as int).len() == 0);
    }
    None
}

/// The address denoted by an `ip` string of a non-compact peer
/// dictionary.
pub fn deserialize_ipaddr(bytes: &[u8]) -> (r: Result<PeerIp, TrackerError>)
    ensures
        r is Ok <==> spec_parse_ip(bytes@) is Some,
        r matches Ok(ip) ==> spec_parse_ip(bytes@) == Some(ip),
        r matches Err(e) ==> e == TrackerError::MalformedResponse,
{
    match PeerIp::parse(bytes) {
        Some(ip) => Ok(ip),
        None => Err(TrackerError::MalformedResponse),
    }
}

/// The peer list denoted by a compact IPv4 blob: each 6-byte chunk is
/// four address bytes and a big-endian port.
pub open spec fn spec_compact_v4_peers(b: Seq<u8>) -> Seq<SpecPeer>
    recommends
        b.len() % 6 == 0,
    decreases b.len(),
{
    if b.len() < 6 {
        Seq::<SpecPeer>::empty()
    } else {
        seq![
            SpecPeer {
                id: None,
                ip: PeerIp::V4 { a: b[0], b: b[1], c: b[2], d: b[3] },
                port: spec_u16_from_be_bytes(b.subrange(4, 6)),
            },
        ] + spec_compact_v4_peers(b.skip(6))
    }
}

/// A compact IPv4 blob of length `6 * n` denotes exactly `n` peers.
pub proof fn lemma_compact_v4_peers_len(b: Seq<u8>)
    requires
        b.len() % 6 == 0,
    ensures
        spec_compact_v4_peers(b).len() * 6 == b.len(),
    decreases b.len(),
{
    if b.len() >= 6 {
        assert(b.skip(6).len() % 6 == 0) by {
            assert(b.skip(6).len() == b.len() - 6);
        }
        lemma_compact_v4_peers_len(b.skip(6));
    }
}

/// The peer list denoted by a compact IPv6 blob: each 18-byte chunk is
/// eight big-endian 16-bit groups and a big-endian port.
pub open spec fn spec_compact_v6_peers(b: Seq<u8>) -> Seq<SpecPeer>
    recommends
        b.len() % 18 == 0,
    decreases b.len(),
{
    if b.len() < 18 {
        Seq::<SpecPeer>::empty()
    } else {
        seq![
            SpecPeer {
                id: None,
                ip: PeerIp::V6 {
                    g0: spec_u16_from_be_bytes(b.subrange(0, 2)),
                    g1: spec_u16_from_be_bytes(b.subrange(2, 4)),
                    g2: spec_u16_from_be_bytes(b.subrange(4, 6)),
                    g3: spec_u16_from_be_bytes(b.subrange(6, 8)),
                    g4: spec_u16_from_be_bytes(b.subrange(8, 10)),
                    g5: spec_u16_from_be_bytes(b.subrange(10, 12)),
                    g6: spec_u16_from_be_bytes(b.subrange(12, 14)),
                    g7: spec_u16_from_be_bytes(b.subrange(14, 16)),
                },
                port: spec_u16_from_be_bytes(b.subrange(16, 18)),
            },
        ] + spec_compact_v6_peers(b.skip(18))
    }
}

/// A compact IPv6 blob of length `18 * n` denotes exactly `n` peers.
pub proof fn lemma_compact_v6_peers_len(b: Seq<u8>)
    requires
        b.len() % 18 == 0,
    ensures
        spec_compact_v6_peers(b).len() * 18 == b.len(),
    decreases b.len(),
{
    if b.len() >= 18 {
        assert(b.skip(18).len() % 18 == 0) by {
            assert(b.skip(18).len() == b.len() - 18);
        }
        lemma_compact_v6_peers_len(b.skip(18));
    }
}

/// Decodes a compact IPv4 peer blob.  A length that is not a multiple of
/// six is rejected; a blob of length `6 * n` yields exactly `n` peers,
/// each with the big-endian port of bytes 4 and 5 of its chunk.
pub fn deserialize_compact_peers(bytes: &[u8]) -> (r: Result<
    Vec<HTTPAnnounceResponsePeer>,
    TrackerError,
>)
    ensures
        r is Ok <==> bytes@.len() % 6 == 0,
        r matches Ok(v) ==> spec_peer_views(v@) == spec_compact_v4_peers(bytes@) && 6 * v@.len()
            == bytes@.len(),
        r matches Err(e) ==> e == TrackerError::MalformedResponse,
{
    let n = bytes.len();
    if n % 6 != 0 {
        return Err(TrackerError::MalformedResponse);
    }
    let mut peers: Vec<HTTPAnnounceResponsePeer> = Vec::new();
    let mut off: usize = 0;
    proof {
        assert(bytes@.skip(0) =~= bytes@);
        assert(spec_peer_views(peers@) + spec_compact_v4_peers(bytes@) =~= spec_compact_v4_peers(
            bytes@,
        ));
    }
    while off < n
        invariant
            n == bytes@.len(),
            n % 6 == 0,
            off <= n,
            off % 6 == 0,
            spec_compact_v4_peers(bytes@) == spec_peer_views(peers@) + spec_compact_v4_peers(
                bytes@.skip(off as int),
            ),
            6 * peers@.len() == off,
        decreases n - off,
    {
        assert(off + 6 <= n);
        let ghost rest = bytes@.skip(off as int);
        let port = read_u16_be(bytes, off + 4);
        proof {
            assert(rest.len() == n - off);
            assert(rest.len() % 6 == 0) by {
                assert(rest.len() == n - off);
            }
            assert(rest.subrange(4, 6) =~= bytes@.subrange(off + 4, off + 6));
            assert(rest.skip(6) =~= bytes@.skip(off + 6));
        }
        peers.push(
            HTTPAnnounceResponsePeer {
                id: None,
                ip: PeerIp::V4 {
                    a: bytes[off],
                    b: bytes[off + 1],
                    c: bytes[off + 2],
                    d: bytes[off + 3],
                },
                port,
            },
        );
        proof {
            assert(spec_compact_v4_peers(bytes@) =~= spec_peer_views(peers@)
                + spec_compact_v4_peers(bytes@.skip(off + 6)));
        }
        off = off + 6;
    }
    proof {
        assert(bytes@.skip(off as int).len() == 0);
        assert(spec_compact_v4_peers(bytes@.skip(off as int)) =~= Seq::<SpecPeer>::empty());
        assert(spec_peer_views(peers@) =~= spec_compact_v4_peers(bytes@));
    }
    Ok(peers)
}

/// Decodes a compact IPv6 peer blob.  A length that is not a multiple of
/// eighteen is rejected; a blob of length `18 * n` yields exactly `n`
/// peers.
pub fn deserialize_peers6(bytes: &[u8]) -> (r: Result<
    Vec<HTTPAnnounceResponsePeer>,
    TrackerError,
>)
    ensures
        r is Ok <==> bytes@.len() % 18 == 0,
        r matches Ok(v) ==> spec_peer_views(v@) == spec_compact_v6_peers(bytes@) && 18 * v@.len()
            == bytes@.len(),
        r matches Err(e) ==> e == TrackerError::MalformedResponse,
{
    let n = bytes.len();
    if n % 18 != 0 {
        return Err(TrackerError::MalformedResponse);
    }
    let mut peers: Vec<HTTPAnnounceResponsePeer> = Vec::new();
    let mut off: usize = 0;
    proof {
        assert(bytes@.skip(0) =~= bytes@);
        assert(spec_peer_views(peers@) + spec_compact_v6_peers(bytes@) =~= spec_compact_v6_peers(
            bytes@,
        ));
    }
    while off < n
        invariant
            n == bytes@.len(),
            n % 18 == 0,
            off <= n,
            off % 18 == 0,
            spec_compact_v6_peers(bytes@) == spec_peer_views(peers@) + spec_compact_v6_peers(
                bytes@.skip(off as int),
            ),
            18 * peers@.len() == off,
        decreases n - off,
    {
        assert(off + 18 <= n);
        let ghost rest = bytes@.skip(off as int);
        let g0 = read_u16_be(bytes, off);
        let g1 = read_u16_be(bytes, off + 2);
        let g2 = read_u16_be(bytes, off + 4);
        let g3 = read_u16_be(bytes, off + 6);
        let g4 = read_u16_be(bytes, off + 8);
        let g5 = read_u16_be(bytes, off + 10);
        let g6 = read_u16_be(bytes, off + 12);
        let g7 = read_u16_be(bytes, off + 14);
        let port = read_u16_be(bytes, off + 16);
        proof {
            assert(rest.len() == n - off);
            assert(rest.len() % 18 == 0) by {
                assert(rest.len() == n - off);
            }
            assert(rest.subrange(0, 2) =~= bytes@.subrange(off as int, off + 2));
            assert(rest.subrange(2, 4) =~= bytes@.subrange(off + 2, off + 4));
            assert(rest.subrange(4, 6) =~= bytes@.subrange(off + 4, off + 6));
            assert(rest.subrange(6, 8) =~= bytes@.subrange(off + 6, off + 8));
            assert(rest.subrange(8, 10) =~= bytes@.subrange(off + 8, off + 10));
            assert(rest.subrange(10, 12) =~= bytes@.subrange(off + 10, off + 12));
            assert(rest.subrange(12, 14) =~= bytes@.subrange(off + 12, off + 14));
            assert(rest.subrange(14, 16) =~= bytes@.subrange(off + 14, off + 16));
            assert(rest.subrange(16, 18) =~= bytes@.subrange(off + 16, off + 18));
            assert(rest.skip(18) =~= bytes@.skip(off + 18));
        }
        peers.push(
            HTTPAnnounceResponsePeer {
                id: None,
                ip: PeerIp::V6 { g0, g1, g2, g3, g4, g5, g6, g7 },
                port,
            },
        );
        proof {
            assert(spec_compact_v6_peers(bytes@) =~= spec_peer_views(peers@)
                + spec_compact_v6_peers(bytes@.skip(off + 18)));
        }
        off = off + 18;
    }
    proof {
        assert(bytes@.skip(off as int).len() == 0);
        assert(spec_compact_v6_peers(bytes@.skip(off as int)) =~= Seq::<SpecPeer>::empty());
        assert(spec_peer_views(peers@) =~= spec_compact_v6_peers(bytes@));
    }
    Ok(peers)
}

/// The peer denoted by one non-compact peer dictionary: an `ip` string
/// that parses as an address, a `port` integer in range, and an optional
/// 20-byte `peer id`.
pub open spec fn spec_peer_of_dict(d: Seq<(Seq<u8>, SpecBValue)>) -> Option<SpecPeer> {
    match (spec_dict_get(d, spec_key_ip()), spec_dict_get(d, spec_key_port())) {
        (Some(SpecBValue::Bytes(ipb)), Some(SpecBValue::Int(p))) => if 0 <= p <= 65535 {
            match spec_parse_ip(ipb) {
                Some(ip) => match spec_dict_get(d, spec_key_peer_id()) {
                    None => Some(SpecPeer { id: None, ip, port: p as u16 }),
                    Some(SpecBValue::Bytes(idb)) => if idb.len() == 20 {
                        Some(SpecPeer { id: Some(idb), ip, port: p as u16 })
                    } else {
                        None
                    },
                    Some(_) => None,
                },
                None => None,
            }
        } else {
            None
        },
        _ => None,
    }
}

/// The peer list denoted by a non-compact list of peer dictionaries, in
/// order; one bad entry rejects the whole list.
pub open spec fn spec_noncompact_peers(l: Seq<SpecBValue>) -> Option<Seq<SpecPeer>>
    decreases l,
{
    if l.len() == 0 {
        Some(Seq::<SpecPeer>::empty())
    } else {
        match l[0] {
            SpecBValue::Dict(d) => match spec_peer_of_dict(d) {
                Some(p) => match spec_noncompact_peers(l.drop_first()) {
                    Some(rest) => Some(seq![p] + rest),
                    None => None,
                },
                None => None,
            },
            _ => None,
        }
    }
}

/// The peer list denoted by a `peers` field: a byte string is the
/// compact IPv4 form, a list is the non-compact form.
pub open spec fn spec_peers_field(v: SpecBValue) -> Option<Seq<SpecPeer>> {
    match v {
        SpecBValue::Bytes(b) => if b.len() % 6 == 0 {
            Some(spec_compact_v4_peers(b))
        } else {
            None
        },
        SpecBValue::List(l) => spec_noncompact_peers(l),
        _ => None,
    }
}

/// The peer list denoted by a `peers6` field: always the compact IPv6
/// form.
pub open spec fn spec_peers6_field(v: SpecBValue) -> Option<Seq<SpecPeer>> {
    match v {
        SpecBValue::Bytes(b) => if b.len() % 18 == 0 {
            Some(spec_compact_v6_peers(b))
        } else {
            None
        },
        _ => None,
    }
}

/// The key `interval`.
pub open spec fn spec_key_interval() -> Seq<u8> {
    seq![105u8, 110u8, 116u8, 101u8, 114u8, 118u8, 97u8, 108u8]
}

/// The key `peers`.
pub open spec fn spec_key_peers() -> Seq<u8> {
    seq![112u8, 101u8, 101u8, 114u8, 115u8]
}

/// The key `peers6`.
pub open spec fn spec_key_peers6() -> Seq<u8> {
    seq![112u8, 101u8, 101u8, 114u8, 115u8, 54u8]
}

/// The key `ip`.
pub open spec fn spec_key_ip() -> Seq<u8> {
    seq![105u8, 112u8]
}

/// The key `port`.
pub open spec fn spec_key_port() -> Seq<u8> {
    seq![112u8, 111u8, 114u8, 116u8]
}

/// The key `peer id`.
pub open spec fn spec_key_peer_id() -> Seq<u8> {
    seq![112u8, 101u8, 101u8, 114u8, 32u8, 105u8, 100u8]
}

/// The announce response denoted by a bencode value: a dictionary with an
/// `interval` integer that fits in 32 bits, a `peers` field in either
/// form, and an optional compact `peers6` field.  Unknown keys are
/// ignored.
pub open spec fn spec_response_of(v: SpecBValue) -> Option<SpecAnnounceResponse> {
    match v {
        SpecBValue::Dict(d) => match (
            spec_dict_get(d, spec_key_interval()),
            spec_dict_get(d, spec_key_peers()),
        ) {
            (Some(SpecBValue::Int(iv)), Some(pv)) => if 0 <= iv <= u32::MAX {
                match spec_peers_field(pv) {
                    Some(ps) => match spec_dict_get(d, spec_key_peers6()) {
                        None => Some(
                            SpecAnnounceResponse { interval: iv as u32, peers: ps, peers6: None },
                        ),
                        Some(p6v) => match spec_peers6_field(p6v) {
                            Some(p6) => Some(
                                SpecAnnounceResponse {
                                    interval: iv as u32,
                                    peers: ps,
                                    peers6: Some(p6),
                                },
                            ),
                            None => None,
                        },
                    },
                    None => None,
                }
            } else {
                None
            },
            _ => None,
        },
        _ => None,
    }
}

/// The announce response denoted by raw body bytes: the canonical
/// bencode value they parse to, read as a response.
pub open spec fn spec_decode_response(bytes: Seq<u8>) -> Option<SpecAnnounceResponse> {
    match spec_parse_bvalue(bytes) {
        Some(v) => spec_response_of(v),
        None => None,
    }
}

/// Reads one non-compact peer dictionary.
fn peer_of_dict(d: &Vec<(Vec<u8>, BValue)>) -> (r: Result<
    HTTPAnnounceResponsePeer,
    TrackerError,
>)
    ensures
        r is Ok <==> spec_peer_of_dict(deep_view_pairs(d@)) is Some,
        r matches Ok(p) ==> spec_peer_of_dict(deep_view_pairs(d@)) == Some(p@),
        r matches Err(e) ==> e == TrackerError::MalformedResponse,
{
    let k_ip: [u8; 2] = [105, 112];
    let k_port: [u8; 4] = [112, 111, 114, 116];
    let k_peer_id: [u8; 7] = [112, 101, 101, 114, 32, 105, 100];
    proof {
        assert(k_ip@ =~= spec_key_ip());
        assert(k_port@ =~= spec_key_port());
        assert(k_peer_id@ =~= spec_key_peer_id());
    }
    let ip_val = dict_get(d, k_ip.as_slice());
    let port_val = dict_get(d, k_port.as_slice());
    let ipb = match ip_val {
        Some(BValue::Bytes(b)) => b,
        _ => {
            return Err(TrackerError::MalformedResponse);
        },
    };
    let p = match port_val {
        Some(BValue::Int(p)) => *p,
        _ => {
            return Err(TrackerError::MalformedResponse);
        },
    };
    if !(0 <= p && p <= 65535) {
        return Err(TrackerError::MalformedResponse);
    }
    let ip = match PeerIp::parse(ipb.as_slice()) {
        Some(ip) => ip,
        None => {
            return Err(TrackerError::MalformedResponse);
        },
    };
    match dict_get(d, k_peer_id.as_slice()) {
        None => Ok(HTTPAnnounceResponsePeer { id: None, ip, port: p as u16 }),
        Some(BValue::Bytes(idb)) => {
            if idb.len() != 20 {
                return Err(TrackerError::MalformedResponse);
            }
            let mut id_bytes: Vec<u8> = Vec::new();
            let mut i: usize = 0;
            while i < 20
                invariant
                    idb@.len() == 20,
                    i <= 20,
                    id_bytes@ =~= idb@.take(i as int),
                decreases 20 - i,
            {
                id_bytes.push(idb[i]);
                i = i + 1;
            }
            proof {
                assert(id_bytes@ =~= idb@);
            }
            let id = PeerId::from_bytes_exact(id_bytes);
            Ok(HTTPAnnounceResponsePeer { id: Some(id), ip, port: p as u16 })
        },
        Some(_) => Err(TrackerError::MalformedResponse),
    }
}

/// Decodes a `peers` field in either of its two shapes: a non-compact
/// list of peer dictionaries, or a compact IPv4 byte string.
#[verifier::loop_isolation(false)]
pub fn deserialize_peers(v: &BValue) -> (r: Result<
    Vec<HTTPAnnounceResponsePeer>,
    TrackerError,
>)
    ensures
        r is Ok <==> spec_peers_field(deep_view(*v)) is Some,
        r matches Ok(ps) ==> spec_peers_field(deep_view(*v)) == Some(spec_peer_views(ps@)),
        r matches Err(e) ==> e == TrackerError::MalformedResponse,
{
    match v {
        BValue::Bytes(b) => deserialize_compact_peers(b.as_slice()),
        BValue::List(l) => {
            let ghost lv = crate::bencode::deep_view_seq(l@);
            proof {
                lemma_deep_view_seq_len(l@);
                assert(lv.skip(0) =~= lv);
            }
            let n = l.len();
            let mut peers: Vec<HTTPAnnounceResponsePeer> = Vec::new();
            let mut k: usize = 0;
            proof {
                assert(lv.skip(0) =~= lv);
                let r0 = spec_noncompact_peers(lv);
                if r0 is Some {
                    assert(spec_peer_views(peers@) + r0->Some_0 =~= r0->Some_0);
                }
            }
            while k < n
                invariant
                    n == l@.len(),
                    lv == crate::bencode::deep_view_seq(l@),
                    lv.len() == n,
                    k <= n,
                    spec_noncompact_peers(lv.skip(k as int)) is Some
                        ==> spec_noncompact_peers(lv) == Some(
                        spec_peer_views(peers@) + spec_noncompact_peers(
                            lv.skip(k as int),
                        )->Some_0,
                    ),
                    spec_noncompact_peers(lv.skip(k as int)) is None ==> spec_noncompact_peers(
                        lv,
                    ) is None,
                decreases n - k,
            {
                proof {
                    lemma_deep_view_seq_index(l@, k as int);
                    assert(lv.skip(k as int)[0] == lv[k as int]);
                    assert(lv.skip(k as int).drop_first() =~= lv.skip(k + 1));
                }
                let d = match &l[k] {
                    BValue::Dict(d) => d,
                    _ => {
                        proof {
                            assert(spec_noncompact_peers(lv.skip(k as int)) is None);
                        }
                        return Err(TrackerError::MalformedResponse);
                    },
                };
                match peer_of_dict(d) {
                    Err(e) => {
                        proof {
                            assert(spec_noncompact_peers(lv.skip(k as int)) is None);
                        }
                        return Err(e);
                    },
                    Ok(p) => {
                        let ghost before = peers@;
                        peers.push(p);
                        proof {
                            assert(spec_peer_views(peers@) =~= spec_peer_views(before)
                                + seq![p@]);
                            let r1 = spec_noncompact_peers(lv.skip(k + 1));
                            if r1 is Some {
                                let rest = r1->Some_0;
                                assert(spec_noncompact_peers(lv.skip(k as int)) == Some(
                                    seq![p@] + rest,
                                ));
                                assert(spec_peer_views(before) + (seq![p@] + rest)
                                    =~= spec_peer_views(peers@) + rest);
                            }
                        }
                    },
                }
                k = k + 1;
            }
            proof {
                assert(lv.skip(n as int).len() == 0);
                assert(lv.skip(n as int) =~= Seq::<SpecBValue>::empty());
                assert(spec_noncompact_peers(lv.skip(n as int)) == Some(
                    Seq::<SpecPeer>::empty(),
                ));
                assert(spec_peer_views(peers@) + Seq::<SpecPeer>::empty() =~= spec_peer_views(
                    peers@,
                ));
            }
            Ok(peers)
        },
        _ => Err(TrackerError::MalformedResponse),
    }
}

impl HTTPAnnounceResponse {
    /// Reads an announce response out of a parsed bencode value.
    pub fn from_bvalue(v: &BValue) -> (r: Result<HTTPAnnounceResponse, TrackerError>)
        ensures
            r is Ok <==> spec_response_of(deep_view(*v)) is Some,
            r matches Ok(resp) ==> spec_response_of(deep_view(*v)) == Some(resp@),
            r matches Err(e) ==> e == TrackerError::MalformedResponse,
    {
        let d = match v {
            BValue::Dict(d) => d,
            _ => {
                return Err(TrackerError::MalformedResponse);
            },
        };
        let k_interval: [u8; 8] = [105, 110, 116, 101, 114, 118, 97, 108];
        let k_peers: [u8; 5] = [112, 101, 101, 114, 115];
        let k_peers6: [u8; 6] = [112, 101, 101, 114, 115, 54];
        proof {
            assert(k_interval@ =~= spec_key_interval());
            assert(k_peers@ =~= spec_key_peers());
            assert(k_peers6@ =~= spec_key_peers6());
        }
        let iv = match dict_get(d, k_interval.as_slice()) {
            Some(BValue::Int(iv)) => *iv,
            _ => {
                return Err(TrackerError::MalformedResponse);
            },
        };
        if !(0 <= iv && iv <= 0xffff_ffff) {
            return Err(TrackerError::MalformedResponse);
        }
        let pv = match dict_get(d, k_peers.as_slice()) {
            Some(pv) => pv,
            None => {
                return Err(TrackerError::MalformedResponse);
            },
        };
        let peers = match deserialize_peers(pv) {
            Ok(ps) => ps,
            Err(e) => {
                return Err(e);
            },
        };
        match dict_get(d, k_peers6.as_slice()) {
            None => Ok(HTTPAnnounceResponse { interval: iv as u32, peers, peers6: None }),
            Some(p6v) => {
                let b = match p6v {
                    BValue::Bytes(b) => b,
                    _ => {
                        return Err(TrackerError::MalformedResponse);
                    },
                };
                match deserialize_peers6(b.as_slice()) {
                    Ok(p6) => Ok(
                        HTTPAnnounceResponse { interval: iv as u32, peers, peers6: Some(p6) },
                    ),
                    Err(e) => Err(e),
                }
            },
        }
    }

    /// Decodes a raw bencoded announce response body.
    pub fn from_bytes(bytes: &[u8]) -> (r: Result<HTTPAnnounceResponse, TrackerError>)
        ensures
            r is Ok <==> spec_decode_response(bytes@) is Some,
            r matches Ok(resp) ==> spec_decode_response(bytes@) == Some(resp@),
            r matches Err(e) ==> e == TrackerError::MalformedResponse,
    {
        match BValue::parse(bytes) {
            Err(e) => Err(e),
            Ok(v) => HTTPAnnounceResponse::from_bvalue(&v),
        }
    }
}

/// Bytes that `application/x-www-form-urlencoded` leaves unchanged:
/// ASCII alphanumerics and `*`, `-`, `.`, `_`.
pub open spec fn spec_form_unreserved(b: u8) -> bool {
    (48 <= b <= 57) || (65 <= b <= 90) || (97 <= b <= 122) || b == 42 || b == 45 || b == 46 || b
        == 95
}

/// The form-urlencoding of one byte: unchanged, `+` for a space, or a
/// percent escape with uppercase hexadecimal digits.
pub open spec fn spec_form_byte_chars(b: u8) -> Seq<char> {
    if b == 32 {
        seq!['+']
    } else if spec_form_unreserved(b) {
        seq![b as char]
    } else {
        seq!['%', spec_hex_char_upper(b as int / 16), spec_hex_char_upper(b as int % 16)]
    }
}

/// The form-urlencoding of a byte string, byte by byte.
pub open spec fn spec_form_urlencoded(bytes: Seq<u8>) -> Seq<char>
    decreases bytes.len(),
{
    if bytes.len() == 0 {
        Seq::<char>::empty()
    } else {
        spec_form_byte_chars(bytes[0]) + spec_form_urlencoded(bytes.drop_first())
    }
}

proof fn lemma_form_urlencoded_snoc(s: Seq<u8>, i: int)
    requires
        0 <= i < s.len(),
    ensures
        spec_form_urlencoded(s.take(i + 1)) == spec_form_urlencoded(s.take(i))
            + spec_form_byte_chars(s[i]),
    decreases i,
{
    if i == 0 {
        assert(s.take(1) =~= seq![s[0]]);
        assert(s.take(1).drop_first() =~= Seq::<u8>::empty());
        assert(s.take(0) =~= Seq::<u8>::empty());
        assert(spec_form_urlencoded(s.take(i + 1)) =~= spec_form_urlencoded(s.take(i))
            + spec_form_byte_chars(s[i]));
    } else {
        lemma_form_urlencoded_snoc(s.drop_first(), i - 1);
        assert(s.take(i + 1).drop_first() =~= s.drop_first().take(i));
        assert(s.take(i).drop_first() =~= s.drop_first().take(i - 1));
        assert(spec_form_urlencoded(s.take(i + 1)) =~= spec_form_urlencoded(s.take(i))
            + spec_form_byte_chars(s[i]));
    }
}

/// Appends the form-urlencoding of `bytes` to `s`, treating each byte as
/// one Latin-1 code point, as the announce query requires for the raw
/// info-hash and peer-id bytes.
pub fn push_form_urlencoded(s: &mut String, bytes: &[u8])
    ensures
        final(s)@ == old(s)@ + spec_form_urlencoded(bytes@),
{
    let n = bytes.len();
    let mut i: usize = 0;
    while i < n
        invariant
            n == bytes@.len(),
            i <= n,
            s@ == old(s)@ + spec_form_urlencoded(bytes@.take(i as int)),
        decreases n - i,
    {
        let b = bytes[i];
        if b == 32 {
            push_char(s, '+');
        } else if (48 <= b && b <= 57) || (65 <= b && b <= 90) || (97 <= b && b <= 122) || b == 42
            || b == 45 || b == 46 || b == 95 {
            push_char(s, b as char);
        } else {
            push_char(s, '%');
            push_char(s, crate::text::hex_char_upper(b / 16));
            push_char(s, crate::text::hex_char_upper(b % 16));
        }
        proof {
            lemma_form_urlencoded_snoc(bytes@, i as int);
            assert(s@ =~= old(s)@ + spec_form_urlencoded(bytes@.take(i + 1)));
        }
        i = i + 1;
    }
    assert(bytes@.take(n as int) =~= bytes@);
}

/// The announce query string for the given parameters: the fixed
/// parameter list in protocol order, the raw hash and peer-id bytes
/// percent-encoded byte for byte, the optional explicit IP, and the
/// event name unless the event is the default `Empty`.
pub open spec fn spec_announce_query(
    info_hash: Seq<u8>,
    peer_id: Seq<u8>,
    port: u16,
    uploaded: u64,
    downloaded: u64,
    left: u64,
    ip: Option<PeerIp>,
    event: AnnounceEvent,
) -> Seq<char> {
    "info_hash="@ + spec_form_urlencoded(info_hash) + "&peer_id="@ + spec_form_urlencoded(peer_id)
        + "&port="@ + spec_decimal_chars(port as nat) + "&uploaded="@ + spec_decimal_chars(
        uploaded as nat,
    ) + "&downloaded="@ + spec_decimal_chars(downloaded as nat) + "&left="@ + spec_decimal_chars(
        left as nat,
    ) + "&compact=1&no_peer_id=0&numwant=50"@ + (match ip {
        Some(p) => "&ip="@ + spec_form_urlencoded(crate::ip::spec_text_bytes(p)),
        None => Seq::<char>::empty(),
    }) + (if event is Empty {
        Seq::<char>::empty()
    } else {
        "&event="@ + event.spec_name()
    })
}

/// Builds the announce query string described by `spec_announce_query`.
pub fn announce_query(
    info_hash: &InfoHash,
    peer_id: &PeerId,
    port: u16,
    uploaded: u64,
    downloaded: u64,
    left: u64,
    ip: Option<PeerIp>,
    event: AnnounceEvent,
) -> (q: String)
    ensures
        q@ == spec_announce_query(
            info_hash@,
            peer_id@,
            port,
            uploaded,
            downloaded,
            left,
            ip,
            event,
        ),
{
    let mut s = String::new();
    s.append("info_hash=");
    push_form_urlencoded(&mut s, info_hash.as_bytes());
    s.append("&peer_id=");
    push_form_urlencoded(&mut s, peer_id.as_bytes());
    s.append("&port=");
    push_decimal_chars(&mut s, port as u64);
    s.append("&uploaded=");
    push_decimal_chars(&mut s, uploaded);
    s.append("&downloaded=");
    push_decimal_chars(&mut s, downloaded);
    s.append("&left=");
    push_decimal_chars(&mut s, left);
    s.append("&compact=1&no_peer_id=0&numwant=50");
    match ip {
        Some(p) => {
            s.append("&ip=");
            let tb = p.to_text_bytes();
            push_form_urlencoded(&mut s, tb.as_slice());
        },
        None => {
        },
    }
    match event {
        AnnounceEvent::Empty => {
        },
        _ => {
            s.append("&event=");
            let name = event.to_string();
            s.append(name.as_str());
        },
    }
    assert(s@ =~= spec_announce_query(
        info_hash@,
        peer_id@,
        port,
        uploaded,
        downloaded,
        left,
        ip,
        event,
    ));
    s
}

/// Whether the text holds a question mark, which decides how the query
/// string is joined to the base URL.
pub open spec fn spec_has_query_mark(s: Seq<char>) -> bool {
    exists|i: int| 0 <= i < s.len() && s[i] == '?'
}

/// The announce URL: the base URL, a `?` (or `&` when the base already
/// carries a query), and the query string.
pub open spec fn spec_announce_url(base: Seq<char>, query: Seq<char>) -> Seq<char> {
    base + (if spec_has_query_mark(base) {
        seq!['&']
    } else {
        seq!['?']
    }) + query
}

/// The HTTP variant of the tracker capability: it knows its announce
/// base URL and builds byte-exact announce request URLs; the caller
/// performs the HTTP GET and hands the body bytes to the decoder.
#[derive(Debug, Clone)]
pub struct HTTPTracker {
    url: String,
}

impl View for HTTPTracker {
    type V = Seq<char>;

    closed spec fn view(&self) -> Seq<char> {
        self.url@
    }
}

impl HTTPTracker {
    /// Wraps a tracker base URL, rejecting text that is not a valid URL.
    pub fn new(url: String) -> (r: Result<HTTPTracker, TrackerError>)
        ensures
            r is Ok <==> url_parse_ok(url@),
            r matches Ok(t) ==> t@ == url@,
            r matches Err(e) ==> e == TrackerError::Format,
    {
        if parse_url_ok(url.as_str()) {
            Ok(HTTPTracker { url })
        } else {
            Err(TrackerError::Format)
        }
    }

    /// The base URL.
    pub fn url(&self) -> (r: &String)
        ensures
            r@ == self@,
    {
        &self.url
    }

    /// Builds the full announce request URL for one announce.
    pub fn announce_url(
        &self,
        info_hash: &InfoHash,
        peer_id: &PeerId,
        port: u16,
        uploaded: u64,
        downloaded: u64,
        left: u64,
        ip: Option<PeerIp>,
        event: AnnounceEvent,
    ) -> (u: String)
        ensures
            u@ == spec_announce_url(
                self@,
                spec_announce_query(
                    info_hash@,
                    peer_id@,
                    port,
                    uploaded,
                    downloaded,
                    left,
                    ip,
                    event,
                ),
            ),
    {
        let mut s = self.url.clone();
        let has_mark = contains_query_mark(self.url.as_str());
        if has_mark {
            push_char(&mut s, '&');
        } else {
            push_char(&mut s, '?');
        }
        let q = announce_query(info_hash, peer_id, port, uploaded, downloaded, left, ip, event);
        s.append(q.as_str());
        assert(s@ =~= spec_announce_url(
            self@,
            spec_announce_query(
                info_hash@,
                peer_id@,
                port,
                uploaded,
                downloaded,
                left,
                ip,
                event,
            ),
        ));
        s
    }
}

/// Decides whether the text holds a question mark.
fn contains_query_mark(t: &str) -> (r: bool)
    ensures
        r == spec_has_query_mark(t@),
{
    broadcast use vstd::string::next_postcondition;
    broadcast use vstd::string::axiom_spec_iter;

    let ghost all = t@;
    let ghost mut done: int = 0;
    let mut it = t.chars();
    loop
        invariant
            all == t@,
            vstd::std_specs::iter::IteratorSpec::obeys_prophetic_iter_laws(&it),
            0 <= done <= all.len(),
            vstd::std_specs::iter::IteratorSpec::remaining(&it) =~= all.skip(done),
            forall|k: int| 0 <= k < done ==> all[k] != '?',
        ensures
            !spec_has_query_mark(all),
        decreases all.len() - done,
    {
        match it.next() {
            None => {
                assert(all.skip(done).len() == 0);
                break ;
            },
            Some(c) => {
                assert(c == all.skip(done)[0]);
                assert(c == all[done]);
                if c == '?' {
                    proof {
                        assert(0 <= done < all.len() && all[done] == '?');
                        assert(spec_has_query_mark(all));
                    }
                    return true;
                }
                proof {
                    assert(all.skip(done).drop_first() =~= all.skip(done + 1));
                    done = done + 1;
                }
            },
        }
    }
    false
}

} // verus!
