//! The UDP tracker wire codec: fixed-layout big-endian packet formats for
//! the connect, announce and scrape exchanges, and the session state
//! machine that validates each response against the request in flight.
//!
//! Every multi-byte integer is big-endian.  Encoding and decoding are pure
//! functions between packet structs and byte buffers; each decoder's
//! acceptance condition is stated exactly by a spec-level parser.

use vstd::prelude::*;

use crate::errors::TrackerError;
use crate::identity::InfoHash;
use crate::torrent::AnnounceEvent;
use crate::wire::{
    i32_to_u32_bits, lemma_i32_u32_bits_roundtrip, lemma_spec_array_20_view,
    lemma_spec_array_4_view, lemma_u16_be_bytes_roundtrip, lemma_u16_be_parse_inverts,
    lemma_u32_be_bytes_roundtrip, lemma_u32_be_parse_inverts, lemma_u32_i32_bits_roundtrip,
    lemma_u64_be_bytes_roundtrip, lemma_u64_be_parse_inverts, push_bytes, push_u16_be,
    push_u32_be, push_u64_be, read_bytes_20, read_bytes_4, read_u16_be, read_u32_be, read_u64_be,
    spec_array_20, spec_array_4, spec_i32_to_u32_bits, spec_u16_from_be_bytes,
    spec_u16_to_be_bytes, spec_u32_bits_to_i32, spec_u32_from_be_bytes, spec_u32_to_be_bytes,
    spec_u64_from_be_bytes, spec_u64_to_be_bytes, u32_bits_to_i32,
};

verus! {

/// The fixed magic protocol id that opens every connect request.
pub const BITTORRENT_UDP_MAGIC: u64 = 0x41727101980;

/// Action code of the connect exchange.
pub const ACTION_CONNECT: u32 = 0;

/// Action code of the announce exchange.
pub const ACTION_ANNOUNCE: u32 = 1;

/// Action code of the scrape exchange.
pub const ACTION_SCRAPE: u32 = 2;

/// Connect request: `{protocol_id, action: 0, transaction_id}`, 16 bytes.
#[derive(Debug, Clone, Copy, PartialEq, Eq, Structural)]
pub struct ConnectRequest {
    pub protocol_id: u64,
    pub action: u32,
    pub transaction_id: u32,
}

impl ConnectRequest {
    /// A well-formed connect request carries the magic and action 0.
    pub open spec fn wf(self) -> bool {
        self.protocol_id == BITTORRENT_UDP_MAGIC && self.action == ACTION_CONNECT
    }

    /// The 16-byte wire image.
    pub open spec fn spec_bytes(self) -> Seq<u8> {
        spec_u64_to_be_bytes(self.protocol_id) + spec_u32_to_be_bytes(self.action)
            + spec_u32_to_be_bytes(self.transaction_id)
    }

    /// Builds a connect request for one freshly drawn transaction id.
    pub fn new(transaction_id: u32) -> (r: ConnectRequest)
        ensures
            r.wf(),
            r.transaction_id == transaction_id,
    {
        ConnectRequest { protocol_id: BITTORRENT_UDP_MAGIC, action: ACTION_CONNECT, transaction_id }
    }

    /// Encodes the request to its 16 wire bytes.
    pub fn to_bytes(&self) -> (r: Vec<u8>)
        ensures
            r@ == self.spec_bytes(),
            r@.len() == 16,
    {
        let mut out: Vec<u8> = Vec::new();
        push_u64_be(&mut out, self.protocol_id);
        push_u32_be(&mut out, self.action);
        push_u32_be(&mut out, self.transaction_id);
        proof {
            lemma_u64_be_bytes_roundtrip(self.protocol_id);
            lemma_u32_be_bytes_roundtrip(self.action);
            lemma_u32_be_bytes_roundtrip(self.transaction_id);
        }
        out
    }

    /// Decodes a 16-byte datagram whose magic and action check out.
    pub fn from_bytes(b: &[u8]) -> (r: Result<ConnectRequest, TrackerError>)
        ensures
            r is Ok <==> spec_parse_connect_request(b@) is Some,
            r matches Ok(v) ==> spec_parse_connect_request(b@) == Some(v),
            r matches Err(e) ==> e == (if b@.len() != 16 {
                TrackerError::MalformedResponse
            } else {
                TrackerError::Protocol
            }),
    {
        if b.len() != 16 {
            return Err(TrackerError::MalformedResponse);
        }
        let protocol_id = read_u64_be(b, 0);
        let action = read_u32_be(b, 8);
        let transaction_id = read_u32_be(b, 12);
        if protocol_id != BITTORRENT_UDP_MAGIC || action != ACTION_CONNECT {
            return Err(TrackerError::Protocol);
        }
        Ok(ConnectRequest { protocol_id, action, transaction_id })
    }
}

/// The connect request denoted by a 16-byte datagram, if its magic and
/// action check out.
pub open spec fn spec_parse_connect_request(b: Seq<u8>) -> Option<ConnectRequest> {
    if b.len() == 16 && spec_u64_from_be_bytes(b.subrange(0, 8)) == BITTORRENT_UDP_MAGIC
        && spec_u32_from_be_bytes(b.subrange(8, 12)) == ACTION_CONNECT {
        Some(
            ConnectRequest {
                protocol_id: BITTORRENT_UDP_MAGIC,
                action: ACTION_CONNECT,
                transaction_id: spec_u32_from_be_bytes(b.subrange(12, 16)),
            },
        )
    } else {
        None
    }
}

/// Encoding then decoding a well-formed connect request reconstructs it
/// field for field.
pub proof fn lemma_connect_request_roundtrip(req: ConnectRequest)
    requires
        req.wf(),
    ensures
        spec_parse_connect_request(req.spec_bytes()) == Some(req),
{
    let b = req.spec_bytes();
    lemma_u64_be_bytes_roundtrip(req.protocol_id);
    lemma_u32_be_bytes_roundtrip(req.action);
    lemma_u32_be_bytes_roundtrip(req.transaction_id);
    assert(b.subrange(0, 8) =~= spec_u64_to_be_bytes(req.protocol_id));
    assert(b.subrange(8, 12) =~= spec_u32_to_be_bytes(req.action));
    assert(b.subrange(12, 16) =~= spec_u32_to_be_bytes(req.transaction_id));
}

/// A datagram accepted by the connect-request parser re-encodes to the
/// same bytes.
pub proof fn lemma_connect_request_parse_inverts(b: Seq<u8>)
    requires
        spec_parse_connect_request(b) is Some,
    ensures
        spec_parse_connect_request(b)->Some_0.spec_bytes() == b,
        spec_parse_connect_request(b)->Some_0.wf(),
{
    let req = spec_parse_connect_request(b)->Some_0;
    lemma_u64_be_parse_inverts(b.subrange(0, 8));
    lemma_u32_be_parse_inverts(b.subrange(8, 12));
    lemma_u32_be_parse_inverts(b.subrange(12, 16));
    assert(req.spec_bytes() =~= b.subrange(0, 8) + b.subrange(8, 12) + b.subrange(12, 16));
    assert(req.spec_bytes() =~= b);
}

/// Connect response: `{action: 0, transaction_id, connection_id}`, 16
/// bytes.
#[derive(Debug, Clone, Copy, PartialEq, Eq, Structural)]
pub struct ConnectResponse {
    pub action: u32,
    pub transaction_id: u32,
    pub connection_id: u64,
}

impl ConnectResponse {
    /// A well-formed connect response carries action 0.
    pub open spec fn wf(self) -> bool {
        self.action == ACTION_CONNECT
    }

    /// The 16-byte wire image.
    pub open spec fn spec_bytes(self) -> Seq<u8> {
        spec_u32_to_be_bytes(self.action) + spec_u32_to_be_bytes(self.transaction_id)
            + spec_u64_to_be_bytes(self.connection_id)
    }

    /// Builds a connect response.
    pub fn new(transaction_id: u32, connection_id: u64) -> (r: ConnectResponse)
        ensures
            r.wf(),
            r.transaction_id == transaction_id,
            r.connection_id == connection_id,
    {
        ConnectResponse { action: ACTION_CONNECT, transaction_id, connection_id }
    }

    /// Encodes the response to its 16 wire bytes.
    pub fn to_bytes(&self) -> (r: Vec<u8>)
        ensures
            r@ == self.spec_bytes(),
            r@.len() == 16,
    {
        let mut out: Vec<u8> = Vec::new();
        push_u32_be(&mut out, self.action);
        push_u32_be(&mut out, self.transaction_id);
        push_u64_be(&mut out, self.connection_id);
        proof {
            lemma_u32_be_bytes_roundtrip(self.action);
            lemma_u32_be_bytes_roundtrip(self.transaction_id);
            lemma_u64_be_bytes_roundtrip(self.connection_id);
        }
        out
    }

    /// Decodes a 16-byte datagram whose action checks out.
    pub fn from_bytes(b: &[u8]) -> (r: Result<ConnectResponse, TrackerError>)
        ensures
            r is Ok <==> spec_parse_connect_response(b@) is Some,
            r matches Ok(v) ==> spec_parse_connect_response(b@) == Some(v),
            r matches Err(e) ==> e == (if b@.len() != 16 {
                TrackerError::MalformedResponse
            } else {
                TrackerError::Protocol
            }),
    {
        if b.len() != 16 {
            return Err(TrackerError::MalformedResponse);
        }
        let action = read_u32_be(b, 0);
        let transaction_id = read_u32_be(b, 4);
        let connection_id = read_u64_be(b, 8);
        if action != ACTION_CONNECT {
            return Err(TrackerError::Protocol);
        }
        Ok(ConnectResponse { action, transaction_id, connection_id })
    }
}

/// The connect response denoted by a 16-byte datagram with action 0.
pub open spec fn spec_parse_connect_response(b: Seq<u8>) -> Option<ConnectResponse> {
    if b.len() == 16 && spec_u32_from_be_bytes(b.subrange(0, 4)) == ACTION_CONNECT {
        Some(
            ConnectResponse {
                action: ACTION_CONNECT,
                transaction_id: spec_u32_from_be_bytes(b.subrange(4, 8)),
                connection_id: spec_u64_from_be_bytes(b.subrange(8, 16)),
            },
        )
    } else {
        None
    }
}

/// Encoding then decoding a well-formed connect response reconstructs it.
pub proof fn lemma_connect_response_roundtrip(resp: ConnectResponse)
    requires
        resp.wf(),
    ensures
        spec_parse_connect_response(resp.spec_bytes()) == Some(resp),
{
    let b = resp.spec_bytes();
    lemma_u32_be_bytes_roundtrip(resp.action);
    lemma_u32_be_bytes_roundtrip(resp.transaction_id);
    lemma_u64_be_bytes_roundtrip(resp.connection_id);
    assert(b.subrange(0, 4) =~= spec_u32_to_be_bytes(resp.action));
    assert(b.subrange(4, 8) =~= spec_u32_to_be_bytes(resp.transaction_id));
    assert(b.subrange(8, 16) =~= spec_u64_to_be_bytes(resp.connection_id));
}

/// A datagram accepted by the connect-response parser re-encodes to the
/// same bytes.
pub proof fn lemma_connect_response_parse_inverts(b: Seq<u8>)
    requires
        spec_parse_connect_response(b) is Some,
    ensures
        spec_parse_connect_response(b)->Some_0.spec_bytes() == b,
        spec_parse_connect_response(b)->Some_0.wf(),
{
    let resp = spec_parse_connect_response(b)->Some_0;
    lemma_u32_be_parse_inverts(b.subrange(0, 4));
    lemma_u32_be_parse_inverts(b.subrange(4, 8));
    lemma_u64_be_parse_inverts(b.subrange(8, 16));
    assert(resp.spec_bytes() =~= b.subrange(0, 4) + b.subrange(4, 8) + b.subrange(8, 16));
    assert(resp.spec_bytes() =~= b);
}

/// Announce request, 98 bytes: connection and transaction ids, the two
/// 20-byte identities, transfer counters, event, optional explicit IPv4
/// address (zero means unspecified), key, wanted peer count (`-1` means
/// the tracker's default) and listen port.
#[derive(Debug, Clone, Copy, PartialEq, Eq)]
pub struct AnnounceRequest {
    pub connection_id: u64,
    pub action: u32,
    pub transaction_id: u32,
    pub info_hash: [u8; 20],
    pub peer_id: [u8; 20],
    pub downloaded: u64,
    pub left: u64,
    pub uploaded: u64,
    pub event: AnnounceEvent,
    pub ip: [u8; 4],
    pub key: u32,
    pub num_want: i32,
    pub port: u16,
}

impl AnnounceRequest {
    /// A well-formed announce request carries action 1.
    pub open spec fn wf(self) -> bool {
        self.action == ACTION_ANNOUNCE
    }

    /// The 98-byte wire image.
    pub open spec fn spec_bytes(self) -> Seq<u8> {
        spec_u64_to_be_bytes(self.connection_id) + spec_u32_to_be_bytes(self.action)
            + spec_u32_to_be_bytes(self.transaction_id) + self.info_hash@ + self.peer_id@
            + spec_u64_to_be_bytes(self.downloaded) + spec_u64_to_be_bytes(self.left)
            + spec_u64_to_be_bytes(self.uploaded) + spec_u32_to_be_bytes(self.event.spec_code())
            + self.ip@ + spec_u32_to_be_bytes(self.key) + spec_u32_to_be_bytes(
            spec_i32_to_u32_bits(self.num_want),
        ) + spec_u16_to_be_bytes(self.port)
    }

    /// Builds an announce request from its field values.  A missing
    /// explicit IP means "unspecified" (four zero bytes); a missing peer
    /// count means the tracker's default (`-1`).
    pub fn new(
        connection_id: u64,
        transaction_id: u32,
        info_hash: &[u8; 20],
        peer_id: &[u8; 20],
        downloaded: u64,
        left: u64,
        uploaded: u64,
        event: AnnounceEvent,
        ip: Option<&[u8; 4]>,
        key: u32,
        num_want: Option<i32>,
        port: u16,
    ) -> (r: AnnounceRequest)
        ensures
            r.wf(),
            r.connection_id == connection_id,
            r.transaction_id == transaction_id,
            r.info_hash == info_hash,
            r.peer_id == peer_id,
            r.downloaded == downloaded,
            r.left == left,
            r.uploaded == uploaded,
            r.event == event,
            r.ip == (match ip {
                Some(x) => *x,
                None => [0u8, 0u8, 0u8, 0u8],
            }),
            r.key == key,
            r.num_want == (match num_want {
                Some(n) => n,
                None => -1i32,
            }),
            r.port == port,
    {
        AnnounceRequest {
            connection_id,
            action: ACTION_ANNOUNCE,
            transaction_id,
            info_hash: *info_hash,
            peer_id: *peer_id,
            downloaded,
            left,
            uploaded,
            event,
            ip: match ip {
                Some(x) => *x,
                None => [0u8, 0u8, 0u8, 0u8],
            },
            key,
            num_want: match num_want {
                Some(n) => n,
                None => -1,
            },
            port,
        }
    }

    /// Encodes the request to its 98 wire bytes.
    pub fn to_bytes(&self) -> (r: Vec<u8>)
        ensures
            r@ == self.spec_bytes(),
            r@.len() == 98,
    {
        let mut out: Vec<u8> = Vec::new();
        push_u64_be(&mut out, self.connection_id);
        push_u32_be(&mut out, self.action);
        push_u32_be(&mut out, self.transaction_id);
        push_bytes(&mut out, self.info_hash.as_slice());
        push_bytes(&mut out, self.peer_id.as_slice());
        push_u64_be(&mut out, self.downloaded);
        push_u64_be(&mut out, self.left);
        push_u64_be(&mut out, self.uploaded);
        push_u32_be(&mut out, self.event.code());
        push_bytes(&mut out, self.ip.as_slice());
        push_u32_be(&mut out, self.key);
        push_u32_be(&mut out, i32_to_u32_bits(self.num_want));
        push_u16_be(&mut out, self.port);
        assert(out@ =~= self.spec_bytes());
        out
    }

    /// Decodes a 98-byte datagram whose action and event code check out.
    pub fn from_bytes(b: &[u8]) -> (r: Result<AnnounceRequest, TrackerError>)
        ensures
            r is Ok <==> spec_parse_announce_request(b@) is Some,
            r matches Ok(v) ==> spec_parse_announce_request(b@) == Some(v),
            r matches Err(e) ==> e == (if b@.len() != 98 {
                TrackerError::MalformedResponse
            } else {
                TrackerError::Protocol
            }),
    {
        if b.len() != 98 {
            return Err(TrackerError::MalformedResponse);
        }
        let connection_id = read_u64_be(b, 0);
        let action = read_u32_be(b, 8);
        let transaction_id = read_u32_be(b, 12);
        let info_hash = read_bytes_20(b, 16);
        let peer_id = read_bytes_20(b, 36);
        let downloaded = read_u64_be(b, 56);
        let left = read_u64_be(b, 64);
        let uploaded = read_u64_be(b, 72);
        let event_code = read_u32_be(b, 80);
        let ip = read_bytes_4(b, 84);
        let key = read_u32_be(b, 88);
        let num_want = u32_bits_to_i32(read_u32_be(b, 92));
        let port = read_u16_be(b, 96);
        if action != ACTION_ANNOUNCE {
            return Err(TrackerError::Protocol);
        }
        match AnnounceEvent::from_code(event_code) {
            None => Err(TrackerError::Protocol),
            Some(event) => Ok(
                AnnounceRequest {
                    connection_id,
                    action,
                    transaction_id,
                    info_hash,
                    peer_id,
                    downloaded,
                    left,
                    uploaded,
                    event,
                    ip,
                    key,
                    num_want,
                    port,
                },
            ),
        }
    }
}

/// The announce request denoted by a 98-byte datagram, if its action and
/// event code check out.
pub open spec fn spec_parse_announce_request(b: Seq<u8>) -> Option<AnnounceRequest> {
    if b.len() == 98 && spec_u32_from_be_bytes(b.subrange(8, 12)) == ACTION_ANNOUNCE
        && AnnounceEvent::spec_from_code(spec_u32_from_be_bytes(b.subrange(80, 84))) is Some {
        Some(
            AnnounceRequest {
                connection_id: spec_u64_from_be_bytes(b.subrange(0, 8)),
                action: ACTION_ANNOUNCE,
                transaction_id: spec_u32_from_be_bytes(b.subrange(12, 16)),
                info_hash: spec_array_20(b.subrange(16, 36)),
                peer_id: spec_array_20(b.subrange(36, 56)),
                downloaded: spec_u64_from_be_bytes(b.subrange(56, 64)),
                left: spec_u64_from_be_bytes(b.subrange(64, 72)),
                uploaded: spec_u64_from_be_bytes(b.subrange(72, 80)),
                event: AnnounceEvent::spec_from_code(
                    spec_u32_from_be_bytes(b.subrange(80, 84)),
                )->Some_0,
                ip: spec_array_4(b.subrange(84, 88)),
                key: spec_u32_from_be_bytes(b.subrange(88, 92)),
                num_want: spec_u32_bits_to_i32(spec_u32_from_be_bytes(b.subrange(92, 96))),
                port: spec_u16_from_be_bytes(b.subrange(96, 98)),
            },
        )
    } else {
        None
    }
}

/// Encoding then decoding a well-formed announce request reconstructs it
/// field for field.
pub proof fn lemma_announce_request_roundtrip(req: AnnounceRequest)
    requires
        req.wf(),
    ensures
        spec_parse_announce_request(req.spec_bytes()) == Some(req),
{
    let b = req.spec_bytes();
    lemma_u64_be_bytes_roundtrip(req.connection_id);
    lemma_u32_be_bytes_roundtrip(req.action);
    lemma_u32_be_bytes_roundtrip(req.transaction_id);
    lemma_u64_be_bytes_roundtrip(req.downloaded);
    lemma_u64_be_bytes_roundtrip(req.left);
    lemma_u64_be_bytes_roundtrip(req.uploaded);
    lemma_u32_be_bytes_roundtrip(req.event.spec_code());
    lemma_u32_be_bytes_roundtrip(req.key);
    lemma_u32_be_bytes_roundtrip(spec_i32_to_u32_bits(req.num_want));
    lemma_u16_be_bytes_roundtrip(req.port);
    lemma_i32_u32_bits_roundtrip(req.num_want);
    crate::torrent::lemma_event_code_roundtrip(req.event);
    assert(b.subrange(0, 8) =~= spec_u64_to_be_bytes(req.connection_id));
    assert(b.subrange(8, 12) =~= spec_u32_to_be_bytes(req.action));
    assert(b.subrange(12, 16) =~= spec_u32_to_be_bytes(req.transaction_id));
    assert(b.subrange(16, 36) =~= req.info_hash@);
    assert(b.subrange(36, 56) =~= req.peer_id@);
    assert(b.subrange(56, 64) =~= spec_u64_to_be_bytes(req.downloaded));
    assert(b.subrange(64, 72) =~= spec_u64_to_be_bytes(req.left));
    assert(b.subrange(72, 80) =~= spec_u64_to_be_bytes(req.uploaded));
    assert(b.subrange(80, 84) =~= spec_u32_to_be_bytes(req.event.spec_code()));
    assert(b.subrange(84, 88) =~= req.ip@);
    assert(b.subrange(88, 92) =~= spec_u32_to_be_bytes(req.key));
    assert(b.subrange(92, 96) =~= spec_u32_to_be_bytes(spec_i32_to_u32_bits(req.num_want)));
    assert(b.subrange(96, 98) =~= spec_u16_to_be_bytes(req.port));
    assert(spec_array_20(req.info_hash@) =~= req.info_hash);
    assert(spec_array_20(req.peer_id@) =~= req.peer_id);
    assert(spec_array_4(req.ip@) =~= req.ip);
}

/// A datagram accepted by the announce-request parser re-encodes to the
/// same bytes.
pub proof fn lemma_announce_request_parse_inverts(b: Seq<u8>)
    requires
        spec_parse_announce_request(b) is Some,
    ensures
        spec_parse_announce_request(b)->Some_0.spec_bytes() == b,
        spec_parse_announce_request(b)->Some_0.wf(),
{
    let req = spec_parse_announce_request(b)->Some_0;
    lemma_u64_be_parse_inverts(b.subrange(0, 8));
    lemma_u32_be_parse_inverts(b.subrange(8, 12));
    lemma_u32_be_parse_inverts(b.subrange(12, 16));
    lemma_spec_array_20_view(b.subrange(16, 36));
    lemma_spec_array_20_view(b.subrange(36, 56));
    lemma_u64_be_parse_inverts(b.subrange(56, 64));
    lemma_u64_be_parse_inverts(b.subrange(64, 72));
    lemma_u64_be_parse_inverts(b.subrange(72, 80));
    lemma_u32_be_parse_inverts(b.subrange(80, 84));
    crate::torrent::lemma_event_from_code_roundtrip(spec_u32_from_be_bytes(b.subrange(80, 84)));
    lemma_spec_array_4_view(b.subrange(84, 88));
    lemma_u32_be_parse_inverts(b.subrange(88, 92));
    lemma_u32_be_parse_inverts(b.subrange(92, 96));
    lemma_u32_i32_bits_roundtrip(spec_u32_from_be_bytes(b.subrange(92, 96)));
    lemma_u16_be_parse_inverts(b.subrange(96, 98));
    assert(spec_u64_to_be_bytes(req.connection_id) == b.subrange(0, 8));
    assert(spec_u32_to_be_bytes(req.action) == b.subrange(8, 12));
    assert(spec_u32_to_be_bytes(req.transaction_id) == b.subrange(12, 16));
    assert(req.info_hash@ == b.subrange(16, 36));
    assert(req.peer_id@ == b.subrange(36, 56));
    assert(spec_u64_to_be_bytes(req.downloaded) == b.subrange(56, 64));
    assert(spec_u64_to_be_bytes(req.left) == b.subrange(64, 72));
    assert(spec_u64_to_be_bytes(req.uploaded) == b.subrange(72, 80));
    assert(spec_u32_to_be_bytes(req.event.spec_code()) == b.subrange(80, 84));
    assert(req.ip@ == b.subrange(84, 88));
    assert(spec_u32_to_be_bytes(req.key) == b.subrange(88, 92));
    assert(spec_u32_to_be_bytes(spec_i32_to_u32_bits(req.num_want)) == b.subrange(92, 96));
    assert(spec_u16_to_be_bytes(req.port) == b.subrange(96, 98));
    assert(req.spec_bytes() =~= b.subrange(0, 8) + b.subrange(8, 12) + b.subrange(12, 16)
        + b.subrange(16, 36) + b.subrange(36, 56) + b.subrange(56, 64) + b.subrange(64, 72)
        + b.subrange(72, 80) + b.subrange(80, 84) + b.subrange(84, 88) + b.subrange(88, 92)
        + b.subrange(92, 96) + b.subrange(96, 98));
    assert(req.spec_bytes() =~= b);
}

/// One IPv4 peer record of an announce response: four address bytes and a
/// big-endian port.
#[derive(Debug, Clone, Copy, PartialEq, Eq)]
pub struct AnnounceResponsePeerV4 {
    pub ip: [u8; 4],
    pub port: u16,
}

impl AnnounceResponsePeerV4 {
    /// The 6-byte wire image.
    pub open spec fn spec_bytes(self) -> Seq<u8> {
        self.ip@ + spec_u16_to_be_bytes(self.port)
    }

    /// Builds a peer record.
    pub fn new(ip: &[u8; 4], port: u16) -> (r: AnnounceResponsePeerV4)
        ensures
            r.ip == ip,
            r.port == port,
    {
        AnnounceResponsePeerV4 { ip: *ip, port }
    }
}

/// The concatenated 6-byte wire images of a peer list.
pub open spec fn spec_peers_v4_bytes(s: Seq<AnnounceResponsePeerV4>) -> Seq<u8>
    decreases s.len(),
{
    if s.len() == 0 {
        Seq::<u8>::empty()
    } else {
        s[0].spec_bytes() + spec_peers_v4_bytes(s.drop_first())
    }
}

/// The peer list denoted by a byte string whose length is a multiple of
/// six: each 6-byte chunk is four address bytes and a big-endian port.
pub open spec fn spec_parse_peers_v4(t: Seq<u8>) -> Seq<AnnounceResponsePeerV4>
    recommends
        t.len() % 6 == 0,
    decreases t.len(),
{
    if t.len() < 6 {
        Seq::<AnnounceResponsePeerV4>::empty()
    } else {
        seq![
            AnnounceResponsePeerV4 {
                ip: spec_array_4(t.subrange(0, 4)),
                port: spec_u16_from_be_bytes(t.subrange(4, 6)),
            },
        ] + spec_parse_peers_v4(t.skip(6))
    }
}

/// A peer list's wire image is six bytes per record.
pub proof fn lemma_peers_v4_bytes_len(s: Seq<AnnounceResponsePeerV4>)
    ensures
        spec_peers_v4_bytes(s).len() == 6 * s.len(),
    decreases s.len(),
{
    if s.len() > 0 {
        lemma_peers_v4_bytes_len(s.drop_first());
    }
}

/// Appending one record appends its six bytes.
proof fn lemma_peers_v4_bytes_snoc(s: Seq<AnnounceResponsePeerV4>, i: int)
    requires
        0 <= i < s.len(),
    ensures
        spec_peers_v4_bytes(s.take(i + 1)) == spec_peers_v4_bytes(s.take(i)) + s[i].spec_bytes(),
    decreases i,
{
    if i == 0 {
        assert(s.take(1) =~= seq![s[0]]);
        assert(s.take(1).drop_first() =~= Seq::<AnnounceResponsePeerV4>::empty());
        assert(s.take(0) =~= Seq::<AnnounceResponsePeerV4>::empty());
        assert(spec_peers_v4_bytes(s.take(i + 1)) =~= spec_peers_v4_bytes(s.take(i))
            + s[i].spec_bytes());
    } else {
        lemma_peers_v4_bytes_snoc(s.drop_first(), i - 1);
        assert(s.take(i + 1).drop_first() =~= s.drop_first().take(i));
        assert(s.take(i).drop_first() =~= s.drop_first().take(i - 1));
        assert(spec_peers_v4_bytes(s.take(i + 1)) =~= spec_peers_v4_bytes(s.take(i))
            + s[i].spec_bytes());
    }
}

/// Encoding a peer list and parsing it back reconstructs the list.
pub proof fn lemma_peers_v4_roundtrip(s: Seq<AnnounceResponsePeerV4>)
    ensures
        spec_parse_peers_v4(spec_peers_v4_bytes(s)) == s,
    decreases s.len(),
{
    if s.len() == 0 {
        assert(spec_parse_peers_v4(spec_peers_v4_bytes(s)) =~= s);
    } else {
        let b = spec_peers_v4_bytes(s);
        lemma_peers_v4_bytes_len(s.drop_first());
        assert(b.len() == 6 + spec_peers_v4_bytes(s.drop_first()).len());
        lemma_peers_v4_roundtrip(s.drop_first());
        assert(b.subrange(0, 4) =~= s[0].ip@);
        assert(b.subrange(4, 6) =~= spec_u16_to_be_bytes(s[0].port));
        assert(b.skip(6) =~= spec_peers_v4_bytes(s.drop_first()));
        lemma_u16_be_bytes_roundtrip(s[0].port);
        assert(spec_array_4(s[0].ip@) =~= s[0].ip);
        assert(spec_parse_peers_v4(b) =~= s);
    }
}

/// Parsing a well-sized byte string and re-encoding the peer list yields
/// the same bytes.
pub proof fn lemma_peers_v4_parse_inverts(t: Seq<u8>)
    requires
        t.len() % 6 == 0,
    ensures
        spec_peers_v4_bytes(spec_parse_peers_v4(t)) == t,
    decreases t.len(),
{
    if t.len() < 6 {
        assert(t.len() == 0);
        assert(spec_peers_v4_bytes(spec_parse_peers_v4(t)) =~= t);
    } else {
        let s = spec_parse_peers_v4(t);
        assert(t.skip(6).len() % 6 == 0) by {
            assert(t.skip(6).len() == t.len() - 6);
        }
        lemma_peers_v4_parse_inverts(t.skip(6));
        lemma_spec_array_4_view(t.subrange(0, 4));
        lemma_u16_be_parse_inverts(t.subrange(4, 6));
        assert(s.drop_first() =~= spec_parse_peers_v4(t.skip(6)));
        assert(s[0].spec_bytes() =~= t.subrange(0, 6));
        assert(spec_peers_v4_bytes(s) =~= t.subrange(0, 6) + t.skip(6));
        assert(spec_peers_v4_bytes(s) =~= t);
    }
}

/// The field values of an announce response: the mathematical model that
/// `AnnounceResponseV4` views to.
pub struct AnnounceResponseV4Fields {
    pub action: u32,
    pub transaction_id: u32,
    pub interval: u32,
    pub leechers: u32,
    pub seeders: u32,
    pub peers: Seq<AnnounceResponsePeerV4>,
}

/// Announce response: a 20-byte header (action 1, transaction id,
/// re-announce interval, leecher and seeder counts) followed by greedily
/// consumed 6-byte IPv4 peer records until the datagram ends.
#[derive(Debug, Clone, PartialEq, Eq)]
pub struct AnnounceResponseV4 {
    pub action: u32,
    pub transaction_id: u32,
    pub interval: u32,
    pub leechers: u32,
    pub seeders: u32,
    pub peers: Vec<AnnounceResponsePeerV4>,
}

impl View for AnnounceResponseV4 {
    type V = AnnounceResponseV4Fields;

    open spec fn view(&self) -> AnnounceResponseV4Fields {
        AnnounceResponseV4Fields {
            action: self.action,
            transaction_id: self.transaction_id,
            interval: self.interval,
            leechers: self.leechers,
            seeders: self.seeders,
            peers: self.peers@,
        }
    }
}

/// The wire image of an announce response with the given field values.
pub open spec fn spec_announce_response_v4_bytes(f: AnnounceResponseV4Fields) -> Seq<u8> {
    spec_u32_to_be_bytes(f.action) + spec_u32_to_be_bytes(f.transaction_id)
        + spec_u32_to_be_bytes(f.interval) + spec_u32_to_be_bytes(f.leechers)
        + spec_u32_to_be_bytes(f.seeders) + spec_peers_v4_bytes(f.peers)
}

/// The announce response denoted by a datagram: at least the 20-byte
/// header, action 1, and a whole number of 6-byte peer records.
pub open spec fn spec_parse_announce_response_v4(b: Seq<u8>) -> Option<AnnounceResponseV4Fields> {
    if b.len() >= 20 && (b.len() - 20) % 6 == 0 && spec_u32_from_be_bytes(b.subrange(0, 4))
        == ACTION_ANNOUNCE {
        Some(
            AnnounceResponseV4Fields {
                action: ACTION_ANNOUNCE,
                transaction_id: spec_u32_from_be_bytes(b.subrange(4, 8)),
                interval: spec_u32_from_be_bytes(b.subrange(8, 12)),
                leechers: spec_u32_from_be_bytes(b.subrange(12, 16)),
                seeders: spec_u32_from_be_bytes(b.subrange(16, 20)),
                peers: spec_parse_peers_v4(b.skip(20)),
            },
        )
    } else {
        None
    }
}

impl AnnounceResponseV4 {
    /// A well-formed announce response carries action 1.
    pub open spec fn wf(self) -> bool {
        self.action == ACTION_ANNOUNCE
    }

    /// Builds an announce response from its field values.
    pub fn new(
        transaction_id: u32,
        interval: u32,
        leechers: u32,
        seeders: u32,
        peers: Vec<AnnounceResponsePeerV4>,
    ) -> (r: AnnounceResponseV4)
        ensures
            r.wf(),
            r@ == (AnnounceResponseV4Fields {
                action: ACTION_ANNOUNCE,
                transaction_id,
                interval,
                leechers,
                seeders,
                peers: peers@,
            }),
    {
        AnnounceResponseV4 {
            action: ACTION_ANNOUNCE,
            transaction_id,
            interval,
            leechers,
            seeders,
            peers,
        }
    }

    /// Encodes the response: the 20-byte header, then each peer's six
    /// bytes in order.
    pub fn to_bytes(&self) -> (r: Vec<u8>)
        ensures
            r@ == spec_announce_response_v4_bytes(self@),
            r@.len() == 20 + 6 * self.peers@.len(),
    {
        let mut out: Vec<u8> = Vec::new();
        push_u32_be(&mut out, self.action);
        push_u32_be(&mut out, self.transaction_id);
        push_u32_be(&mut out, self.interval);
        push_u32_be(&mut out, self.leechers);
        push_u32_be(&mut out, self.seeders);
        let ghost header = out@;
        let n = self.peers.len();
        let mut k: usize = 0;
        while k < n
            invariant
                n == self.peers@.len(),
                k <= n,
                out@ == header + spec_peers_v4_bytes(self.peers@.take(k as int)),
            decreases n - k,
        {
            let peer = &self.peers[k];
            push_bytes(&mut out, peer.ip.as_slice());
            push_u16_be(&mut out, peer.port);
            proof {
                lemma_peers_v4_bytes_snoc(self.peers@, k as int);
                assert(out@ =~= header + spec_peers_v4_bytes(self.peers@.take(k + 1)));
            }
            k = k + 1;
        }
        proof {
            assert(self.peers@.take(n as int) =~= self.peers@);
            assert(out@ =~= spec_announce_response_v4_bytes(self@));
            lemma_peers_v4_bytes_len(self.peers@);
        }
        out
    }

    /// Decodes a datagram into the header fields and as many whole peer
    /// records as it holds.
    pub fn from_bytes(b: &[u8]) -> (r: Result<AnnounceResponseV4, TrackerError>)
        ensures
            r is Ok <==> spec_parse_announce_response_v4(b@) is Some,
            r matches Ok(v) ==> spec_parse_announce_response_v4(b@) == Some(v@) && v.wf(),
            r matches Err(e) ==> e == (if b@.len() < 20 || (b@.len() - 20) % 6 != 0 {
                TrackerError::MalformedResponse
            } else {
                TrackerError::Protocol
            }),
    {
        if b.len() < 20 || (b.len() - 20) % 6 != 0 {
            return Err(TrackerError::MalformedResponse);
        }
        let action = read_u32_be(b, 0);
        if action != ACTION_ANNOUNCE {
            return Err(TrackerError::Protocol);
        }
        let transaction_id = read_u32_be(b, 4);
        let interval = read_u32_be(b, 8);
        let leechers = read_u32_be(b, 12);
        let seeders = read_u32_be(b, 16);
        let ghost t = b@.skip(20);
        let n = b.len();
        let mut peers: Vec<AnnounceResponsePeerV4> = Vec::new();
        let mut off: usize = 20;
        proof {
            assert(t.skip(0) =~= t);
            assert(peers@ + spec_parse_peers_v4(t) =~= spec_parse_peers_v4(t));
        }
        while off < n
            invariant
                n == b@.len(),
                t == b@.skip(20),
                n >= 20,
                (n - 20) % 6 == 0,
                20 <= off <= n,
                (off - 20) % 6 == 0,
                spec_parse_peers_v4(t) == peers@ + spec_parse_peers_v4(t.skip(off - 20)),
            decreases n - off,
        {
            assert(off + 6 <= n);
            let ip = read_bytes_4(b, off);
            let port = read_u16_be(b, off + 4);
            let ghost rest = t.skip(off - 20);
            proof {
                assert(rest.len() == n - off);
                assert(rest.len() % 6 == 0) by {
                    assert(rest.len() == (n - 20) - (off - 20));
                }
                assert(rest.subrange(0, 4) =~= b@.subrange(off as int, off + 4));
                assert(rest.subrange(4, 6) =~= b@.subrange(off + 4, off + 6));
                assert(rest.skip(6) =~= t.skip(off - 20 + 6));
            }
            peers.push(AnnounceResponsePeerV4 { ip, port });
            proof {
                assert(spec_parse_peers_v4(t) =~= peers@ + spec_parse_peers_v4(
                    t.skip(off + 6 - 20),
                ));
            }
            off = off + 6;
        }
        proof {
            assert(t.skip(off - 20).len() == 0);
            assert(spec_parse_peers_v4(t.skip(off - 20)) =~= Seq::<
                AnnounceResponsePeerV4,
            >::empty());
            assert(peers@ =~= spec_parse_peers_v4(t));
        }
        Ok(AnnounceResponseV4 { action, transaction_id, interval, leechers, seeders, peers })
    }
}

/// Encoding then decoding a well-formed announce response reconstructs
/// its field values.
pub proof fn lemma_announce_response_v4_roundtrip(f: AnnounceResponseV4Fields)
    requires
        f.action == ACTION_ANNOUNCE,
    ensures
        spec_parse_announce_response_v4(spec_announce_response_v4_bytes(f)) == Some(f),
{
    let b = spec_announce_response_v4_bytes(f);
    lemma_peers_v4_bytes_len(f.peers);
    lemma_u32_be_bytes_roundtrip(f.action);
    lemma_u32_be_bytes_roundtrip(f.transaction_id);
    lemma_u32_be_bytes_roundtrip(f.interval);
    lemma_u32_be_bytes_roundtrip(f.leechers);
    lemma_u32_be_bytes_roundtrip(f.seeders);
    assert(b.subrange(0, 4) =~= spec_u32_to_be_bytes(f.action));
    assert(b.subrange(4, 8) =~= spec_u32_to_be_bytes(f.transaction_id));
    assert(b.subrange(8, 12) =~= spec_u32_to_be_bytes(f.interval));
    assert(b.subrange(12, 16) =~= spec_u32_to_be_bytes(f.leechers));
    assert(b.subrange(16, 20) =~= spec_u32_to_be_bytes(f.seeders));
    assert(b.skip(20) =~= spec_peers_v4_bytes(f.peers));
    lemma_peers_v4_roundtrip(f.peers);
}

/// A datagram accepted by the announce-response parser re-encodes to the
/// same bytes.
pub proof fn lemma_announce_response_v4_parse_inverts(b: Seq<u8>)
    requires
        spec_parse_announce_response_v4(b) is Some,
    ensures
        spec_announce_response_v4_bytes(spec_parse_announce_response_v4(b)->Some_0) == b,
{
    let f = spec_parse_announce_response_v4(b)->Some_0;
    lemma_u32_be_parse_inverts(b.subrange(0, 4));
    lemma_u32_be_parse_inverts(b.subrange(4, 8));
    lemma_u32_be_parse_inverts(b.subrange(8, 12));
    lemma_u32_be_parse_inverts(b.subrange(12, 16));
    lemma_u32_be_parse_inverts(b.subrange(16, 20));
    assert(b.skip(20).len() % 6 == 0) by {
        assert(b.skip(20).len() == b.len() - 20);
    }
    lemma_peers_v4_parse_inverts(b.skip(20));
    assert(spec_announce_response_v4_bytes(f) =~= b.subrange(0, 4) + b.subrange(4, 8)
        + b.subrange(8, 12) + b.subrange(12, 16) + b.subrange(16, 20) + b.skip(20));
    assert(spec_announce_response_v4_bytes(f) =~= b);
}

/// The concatenated wire images of a list of 20-byte info hashes.
pub open spec fn spec_hashes_bytes(s: Seq<Seq<u8>>) -> Seq<u8>
    decreases s.len(),
{
    if s.len() == 0 {
        Seq::<u8>::empty()
    } else {
        s[0] + spec_hashes_bytes(s.drop_first())
    }
}

/// The info-hash list denoted by a byte string whose length is a
/// multiple of twenty.
pub open spec fn spec_parse_hashes(t: Seq<u8>) -> Seq<Seq<u8>>
    recommends
        t.len() % 20 == 0,
    decreases t.len(),
{
    if t.len() < 20 {
        Seq::<Seq<u8>>::empty()
    } else {
        seq![t.subrange(0, 20)] + spec_parse_hashes(t.skip(20))
    }
}

/// A hash list of 20-byte entries encodes to twenty bytes per entry.
pub proof fn lemma_hashes_bytes_len(s: Seq<Seq<u8>>)
    requires
        forall|i: int| 0 <= i < s.len() ==> (#[trigger] s[i]).len() == 20,
    ensures
        spec_hashes_bytes(s).len() == 20 * s.len(),
    decreases s.len(),
{
    if s.len() > 0 {
        lemma_hashes_bytes_len(s.drop_first());
    }
}

/// Appending one hash appends its twenty bytes.
proof fn lemma_hashes_bytes_snoc(s: Seq<Seq<u8>>, i: int)
    requires
        0 <= i < s.len(),
    ensures
        spec_hashes_bytes(s.take(i + 1)) == spec_hashes_bytes(s.take(i)) + s[i],
    decreases i,
{
    if i == 0 {
        assert(s.take(1) =~= seq![s[0]]);
        assert(s.take(1).drop_first() =~= Seq::<Seq<u8>>::empty());
        assert(s.take(0) =~= Seq::<Seq<u8>>::empty());
        assert(spec_hashes_bytes(s.take(i + 1)) =~= spec_hashes_bytes(s.take(i)) + s[i]);
    } else {
        lemma_hashes_bytes_snoc(s.drop_first(), i - 1);
        assert(s.take(i + 1).drop_first() =~= s.drop_first().take(i));
        assert(s.take(i).drop_first() =~= s.drop_first().take(i - 1));
        assert(spec_hashes_bytes(s.take(i + 1)) =~= spec_hashes_bytes(s.take(i)) + s[i]);
    }
}

/// Encoding a list of 20-byte hashes and parsing it back reconstructs
/// the list.
pub proof fn lemma_hashes_roundtrip(s: Seq<Seq<u8>>)
    requires
        forall|i: int| 0 <= i < s.len() ==> (#[trigger] s[i]).len() == 20,
    ensures
        spec_parse_hashes(spec_hashes_bytes(s)) == s,
    decreases s.len(),
{
    if s.len() == 0 {
        assert(spec_parse_hashes(spec_hashes_bytes(s)) =~= s);
    } else {
        let b = spec_hashes_bytes(s);
        lemma_hashes_bytes_len(s.drop_first());
        lemma_hashes_roundtrip(s.drop_first());
        assert(b.subrange(0, 20) =~= s[0]);
        assert(b.skip(20) =~= spec_hashes_bytes(s.drop_first()));
        assert(spec_parse_hashes(b) =~= s);
    }
}

/// Parsing a well-sized byte string and re-encoding the hash list yields
/// the same bytes.
pub proof fn lemma_hashes_parse_inverts(t: Seq<u8>)
    requires
        t.len() % 20 == 0,
    ensures
        spec_hashes_bytes(spec_parse_hashes(t)) == t,
    decreases t.len(),
{
    if t.len() < 20 {
        assert(t.len() == 0);
        assert(spec_hashes_bytes(spec_parse_hashes(t)) =~= t);
    } else {
        assert(t.skip(20).len() % 20 == 0) by {
            assert(t.skip(20).len() == t.len() - 20);
        }
        lemma_hashes_parse_inverts(t.skip(20));
        let s = spec_parse_hashes(t);
        assert(s.drop_first() =~= spec_parse_hashes(t.skip(20)));
        assert(spec_hashes_bytes(s) =~= t.subrange(0, 20) + t.skip(20));
        assert(spec_hashes_bytes(s) =~= t);
    }
}

/// The field values of a scrape request: the mathematical model that
/// `ScrapeRequest` views to, with each info hash as its byte sequence.
pub struct ScrapeRequestFields {
    pub connection_id: u64,
    pub action: u32,
    pub transaction_id: u32,
    pub info_hashes: Seq<Seq<u8>>,
}

/// Scrape request: connection id, action 2, transaction id, then the
/// 20-byte info hashes whose swarm statistics are asked for, in order.
#[derive(Debug, Clone)]
pub struct ScrapeRequest {
    pub connection_id: u64,
    pub action: u32,
    pub transaction_id: u32,
    pub info_hashes: Vec<InfoHash>,
}

impl View for ScrapeRequest {
    type V = ScrapeRequestFields;

    open spec fn view(&self) -> ScrapeRequestFields {
        ScrapeRequestFields {
            connection_id: self.connection_id,
            action: self.action,
            transaction_id: self.transaction_id,
            info_hashes: self.info_hashes@.map_values(|h: InfoHash| h@),
        }
    }
}

/// The wire image of a scrape request with the given field values.
pub open spec fn spec_scrape_request_bytes(f: ScrapeRequestFields) -> Seq<u8> {
    spec_u64_to_be_bytes(f.connection_id) + spec_u32_to_be_bytes(f.action)
        + spec_u32_to_be_bytes(f.transaction_id) + spec_hashes_bytes(f.info_hashes)
}

/// The scrape request denoted by a datagram: the 16-byte header with
/// action 2, then a whole number of 20-byte info hashes.
pub open spec fn spec_parse_scrape_request(b: Seq<u8>) -> Option<ScrapeRequestFields> {
    if b.len() >= 16 && (b.len() - 16) % 20 == 0 && spec_u32_from_be_bytes(b.subrange(8, 12))
        == ACTION_SCRAPE {
        Some(
            ScrapeRequestFields {
                connection_id: spec_u64_from_be_bytes(b.subrange(0, 8)),
                action: ACTION_SCRAPE,
                transaction_id: spec_u32_from_be_bytes(b.subrange(12, 16)),
                info_hashes: spec_parse_hashes(b.skip(16)),
            },
        )
    } else {
        None
    }
}

impl ScrapeRequest {
    /// A well-formed scrape request carries action 2; its hashes are
    /// 20 bytes each by construction of `InfoHash`.
    pub open spec fn wf(self) -> bool {
        self.action == ACTION_SCRAPE && forall|i: int|
            0 <= i < self.info_hashes@.len() ==> (#[trigger] self.info_hashes@[i]).wf()
    }

    /// Builds a scrape request for the given info hashes.
    pub fn new(connection_id: u64, transaction_id: u32, info_hashes: Vec<InfoHash>) -> (r:
        ScrapeRequest)
        ensures
            r.action == ACTION_SCRAPE,
            r.connection_id == connection_id,
            r.transaction_id == transaction_id,
            r.info_hashes == info_hashes,
            (forall|i: int| 0 <= i < info_hashes@.len() ==> (#[trigger] info_hashes@[i]).wf())
                ==> r.wf(),
    {
        ScrapeRequest { connection_id, action: ACTION_SCRAPE, transaction_id, info_hashes }
    }

    /// Encodes the request: the 16-byte header, then each hash's twenty
    /// bytes in order.
    pub fn to_bytes(&self) -> (r: Vec<u8>)
        ensures
            r@ == spec_scrape_request_bytes(self@),
    {
        let mut out: Vec<u8> = Vec::new();
        push_u64_be(&mut out, self.connection_id);
        push_u32_be(&mut out, self.action);
        push_u32_be(&mut out, self.transaction_id);
        let ghost header = out@;
        let ghost views = self@.info_hashes;
        let n = self.info_hashes.len();
        let mut k: usize = 0;
        while k < n
            invariant
                n == self.info_hashes@.len(),
                views == self@.info_hashes,
                views.len() == n,
                k <= n,
                out@ == header + spec_hashes_bytes(views.take(k as int)),
            decreases n - k,
        {
            push_bytes(&mut out, self.info_hashes[k].as_bytes());
            proof {
                lemma_hashes_bytes_snoc(views, k as int);
                assert(out@ =~= header + spec_hashes_bytes(views.take(k + 1)));
            }
            k = k + 1;
        }
        proof {
            assert(views.take(n as int) =~= views);
            assert(out@ =~= spec_scrape_request_bytes(self@));
        }
        out
    }

    /// Decodes a datagram into the header fields and as many whole
    /// 20-byte hashes as it holds.
    pub fn from_bytes(b: &[u8]) -> (r: Result<ScrapeRequest, TrackerError>)
        ensures
            r is Ok <==> spec_parse_scrape_request(b@) is Some,
            r matches Ok(v) ==> spec_parse_scrape_request(b@) == Some(v@) && v.wf(),
            r matches Err(e) ==> e == (if b@.len() < 16 || (b@.len() - 16) % 20 != 0 {
                TrackerError::MalformedResponse
            } else {
                TrackerError::Protocol
            }),
    {
        if b.len() < 16 || (b.len() - 16) % 20 != 0 {
            return Err(TrackerError::MalformedResponse);
        }
        let connection_id = read_u64_be(b, 0);
        let action = read_u32_be(b, 8);
        if action != ACTION_SCRAPE {
            return Err(TrackerError::Protocol);
        }
        let transaction_id = read_u32_be(b, 12);
        let ghost t = b@.skip(16);
        let n = b.len();
        let mut info_hashes: Vec<InfoHash> = Vec::new();
        let mut off: usize = 16;
        proof {
            assert(t.skip(0) =~= t);
            assert(info_hashes@.map_values(|h: InfoHash| h@) + spec_parse_hashes(t)
                =~= spec_parse_hashes(t));
        }
        while off < n
            invariant
                n == b@.len(),
                t == b@.skip(16),
                n >= 16,
                (n - 16) % 20 == 0,
                16 <= off <= n,
                (off - 16) % 20 == 0,
                spec_parse_hashes(t) == info_hashes@.map_values(|h: InfoHash| h@)
                    + spec_parse_hashes(t.skip(off - 16)),
                forall|i: int|
                    0 <= i < info_hashes@.len() ==> (#[trigger] info_hashes@[i]).wf(),
            decreases n - off,
        {
            assert(off + 20 <= n);
            let chunk = vstd::slice::slice_to_vec(vstd::slice::slice_subrange(b, off, off + 20));
            let ghost rest = t.skip(off - 16);
            proof {
                assert(rest.len() == n - off);
                assert(rest.len() % 20 == 0) by {
                    assert(rest.len() == (n - 16) - (off - 16));
                }
                assert(rest.subrange(0, 20) =~= b@.subrange(off as int, off + 20));
                assert(rest.skip(20) =~= t.skip(off - 16 + 20));
            }
            let hash = InfoHash::from_bytes_exact(chunk);
            info_hashes.push(hash);
            proof {
                assert(spec_parse_hashes(t) =~= info_hashes@.map_values(|h: InfoHash| h@)
                    + spec_parse_hashes(t.skip(off + 20 - 16)));
            }
            off = off + 20;
        }
        proof {
            assert(t.skip(off - 16).len() == 0);
            assert(spec_parse_hashes(t.skip(off - 16)) =~= Seq::<Seq<u8>>::empty());
            assert(info_hashes@.map_values(|h: InfoHash| h@) =~= spec_parse_hashes(t));
        }
        Ok(ScrapeRequest { connection_id, action, transaction_id, info_hashes })
    }
}

/// Encoding then decoding a well-formed scrape request reconstructs its
/// field values.
pub proof fn lemma_scrape_request_roundtrip(f: ScrapeRequestFields)
    requires
        f.action == ACTION_SCRAPE,
        forall|i: int| 0 <= i < f.info_hashes.len() ==> (#[trigger] f.info_hashes[i]).len() == 20,
    ensures
        spec_parse_scrape_request(spec_scrape_request_bytes(f)) == Some(f),
{
    let b = spec_scrape_request_bytes(f);
    lemma_hashes_bytes_len(f.info_hashes);
    lemma_u64_be_bytes_roundtrip(f.connection_id);
    lemma_u32_be_bytes_roundtrip(f.action);
    lemma_u32_be_bytes_roundtrip(f.transaction_id);
    assert(b.subrange(0, 8) =~= spec_u64_to_be_bytes(f.connection_id));
    assert(b.subrange(8, 12) =~= spec_u32_to_be_bytes(f.action));
    assert(b.subrange(12, 16) =~= spec_u32_to_be_bytes(f.transaction_id));
    assert(b.skip(16) =~= spec_hashes_bytes(f.info_hashes));
    lemma_hashes_roundtrip(f.info_hashes);
}

/// A datagram accepted by the scrape-request parser re-encodes to the
/// same bytes.
pub proof fn lemma_scrape_request_parse_inverts(b: Seq<u8>)
    requires
        spec_parse_scrape_request(b) is Some,
    ensures
        spec_scrape_request_bytes(spec_parse_scrape_request(b)->Some_0) == b,
{
    let f = spec_parse_scrape_request(b)->Some_0;
    lemma_u64_be_parse_inverts(b.subrange(0, 8));
    lemma_u32_be_parse_inverts(b.subrange(8, 12));
    lemma_u32_be_parse_inverts(b.subrange(12, 16));
    assert(b.skip(16).len() % 20 == 0) by {
        assert(b.skip(16).len() == b.len() - 16);
    }
    lemma_hashes_parse_inverts(b.skip(16));
    assert(spec_scrape_request_bytes(f) =~= b.subrange(0, 8) + b.subrange(8, 12) + b.subrange(
        12,
        16,
    ) + b.skip(16));
    assert(spec_scrape_request_bytes(f) =~= b);
}

/// Swarm statistics for one info hash of a scrape response, in wire
/// order: seeders, completed downloads, leechers.
#[derive(Debug, Clone, Copy, PartialEq, Eq, Structural)]
pub struct ScrapeResponseFile {
    pub seeders: u32,
    pub completed: u32,
    pub leechers: u32,
}

impl ScrapeResponseFile {
    /// The 12-byte wire image.
    pub open spec fn spec_bytes(self) -> Seq<u8> {
        spec_u32_to_be_bytes(self.seeders) + spec_u32_to_be_bytes(self.completed)
            + spec_u32_to_be_bytes(self.leechers)
    }
}

/// The concatenated 12-byte wire images of a statistics list.
pub open spec fn spec_files_bytes(s: Seq<ScrapeResponseFile>) -> Seq<u8>
    decreases s.len(),
{
    if s.len() == 0 {
        Seq::<u8>::empty()
    } else {
        s[0].spec_bytes() + spec_files_bytes(s.drop_first())
    }
}

/// The statistics list denoted by a byte string whose length is a
/// multiple of twelve.
pub open spec fn spec_parse_files(t: Seq<u8>) -> Seq<ScrapeResponseFile>
    recommends
        t.len() % 12 == 0,
    decreases t.len(),
{
    if t.len() < 12 {
        Seq::<ScrapeResponseFile>::empty()
    } else {
        seq![
            ScrapeResponseFile {
                seeders: spec_u32_from_be_bytes(t.subrange(0, 4)),
                completed: spec_u32_from_be_bytes(t.subrange(4, 8)),
                leechers: spec_u32_from_be_bytes(t.subrange(8, 12)),
            },
        ] + spec_parse_files(t.skip(12))
    }
}

/// A statistics list's wire image is twelve bytes per record.
pub proof fn lemma_files_bytes_len(s: Seq<ScrapeResponseFile>)
    ensures
        spec_files_bytes(s).len() == 12 * s.len(),
    decreases s.len(),
{
    if s.len() > 0 {
        lemma_files_bytes_len(s.drop_first());
    }
}

/// Appending one record appends its twelve bytes.
proof fn lemma_files_bytes_snoc(s: Seq<ScrapeResponseFile>, i: int)
    requires
        0 <= i < s.len(),
    ensures
        spec_files_bytes(s.take(i + 1)) == spec_files_bytes(s.take(i)) + s[i].spec_bytes(),
    decreases i,
{
    if i == 0 {
        assert(s.take(1) =~= seq![s[0]]);
        assert(s.take(1).drop_first() =~= Seq::<ScrapeResponseFile>::empty());
        assert(s.take(0) =~= Seq::<ScrapeResponseFile>::empty());
        assert(spec_files_bytes(s.take(i + 1)) =~= spec_files_bytes(s.take(i))
            + s[i].spec_bytes());
    } else {
        lemma_files_bytes_snoc(s.drop_first(), i - 1);
        assert(s.take(i + 1).drop_first() =~= s.drop_first().take(i));
        assert(s.take(i).drop_first() =~= s.drop_first().take(i - 1));
        assert(spec_files_bytes(s.take(i + 1)) =~= spec_files_bytes(s.take(i))
            + s[i].spec_bytes());
    }
}

/// Encoding a statistics list and parsing it back reconstructs the list.
pub proof fn lemma_files_roundtrip(s: Seq<ScrapeResponseFile>)
    ensures
        spec_parse_files(spec_files_bytes(s)) == s,
    decreases s.len(),
{
    if s.len() == 0 {
        assert(spec_parse_files(spec_files_bytes(s)) =~= s);
    } else {
        let b = spec_files_bytes(s);
        lemma_files_bytes_len(s.drop_first());
        lemma_files_roundtrip(s.drop_first());
        lemma_u32_be_bytes_roundtrip(s[0].seeders);
        lemma_u32_be_bytes_roundtrip(s[0].completed);
        lemma_u32_be_bytes_roundtrip(s[0].leechers);
        assert(b.subrange(0, 4) =~= spec_u32_to_be_bytes(s[0].seeders));
        assert(b.subrange(4, 8) =~= spec_u32_to_be_bytes(s[0].completed));
        assert(b.subrange(8, 12) =~= spec_u32_to_be_bytes(s[0].leechers));
        assert(b.skip(12) =~= spec_files_bytes(s.drop_first()));
        assert(spec_parse_files(b) =~= s);
    }
}

/// Parsing a well-sized byte string and re-encoding the statistics list
/// yields the same bytes.
pub proof fn lemma_files_parse_inverts(t: Seq<u8>)
    requires
        t.len() % 12 == 0,
    ensures
        spec_files_bytes(spec_parse_files(t)) == t,
    decreases t.len(),
{
    if t.len() < 12 {
        assert(t.len() == 0);
        assert(spec_files_bytes(spec_parse_files(t)) =~= t);
    } else {
        let s = spec_parse_files(t);
        assert(t.skip(12).len() % 12 == 0) by {
            assert(t.skip(12).len() == t.len() - 12);
        }
        lemma_files_parse_inverts(t.skip(12));
        lemma_u32_be_parse_inverts(t.subrange(0, 4));
        lemma_u32_be_parse_inverts(t.subrange(4, 8));
        lemma_u32_be_parse_inverts(t.subrange(8, 12));
        assert(s.drop_first() =~= spec_parse_files(t.skip(12)));
        assert(s[0].spec_bytes() =~= t.subrange(0, 12));
        assert(spec_files_bytes(s) =~= t.subrange(0, 12) + t.skip(12));
        assert(spec_files_bytes(s) =~= t);
    }
}

/// The field values of a scrape response: the mathematical model that
/// `ScrapeResponse` views to.
pub struct ScrapeResponseFields {
    pub action: u32,
    pub transaction_id: u32,
    pub files: Seq<ScrapeResponseFile>,
}

/// Scrape response: action 2 and the transaction id, followed by one
/// 12-byte statistics record per requested info hash, in request order.
#[derive(Debug, Clone, PartialEq, Eq)]
pub struct ScrapeResponse {
    pub action: u32,
    pub transaction_id: u32,
    pub files: Vec<ScrapeResponseFile>,
}

impl View for ScrapeResponse {
    type V = ScrapeResponseFields;

    open spec fn view(&self) -> ScrapeResponseFields {
        ScrapeResponseFields {
            action: self.action,
            transaction_id: self.transaction_id,
            files: self.files@,
        }
    }
}

/// The wire image of a scrape response with the given field values.
pub open spec fn spec_scrape_response_bytes(f: ScrapeResponseFields) -> Seq<u8> {
    spec_u32_to_be_bytes(f.action) + spec_u32_to_be_bytes(f.transaction_id) + spec_files_bytes(
        f.files,
    )
}

/// The scrape response denoted by a datagram: the 8-byte header with
/// action 2, then a whole number of 12-byte statistics records.
pub open spec fn spec_parse_scrape_response(b: Seq<u8>) -> Option<ScrapeResponseFields> {
    if b.len() >= 8 && (b.len() - 8) % 12 == 0 && spec_u32_from_be_bytes(b.subrange(0, 4))
        == ACTION_SCRAPE {
        Some(
            ScrapeResponseFields {
                action: ACTION_SCRAPE,
                transaction_id: spec_u32_from_be_bytes(b.subrange(4, 8)),
                files: spec_parse_files(b.skip(8)),
            },
        )
    } else {
        None
    }
}

impl ScrapeResponse {
    /// A well-formed scrape response carries action 2.
    pub open spec fn wf(self) -> bool {
        self.action == ACTION_SCRAPE
    }

    /// Encodes the response: the 8-byte header, then each record's
    /// twelve bytes in order.
    pub fn to_bytes(&self) -> (r: Vec<u8>)
        ensures
            r@ == spec_scrape_response_bytes(self@),
            r@.len() == 8 + 12 * self.files@.len(),
    {
        let mut out: Vec<u8> = Vec::new();
        push_u32_be(&mut out, self.action);
        push_u32_be(&mut out, self.transaction_id);
        let ghost header = out@;
        let n = self.files.len();
        let mut k: usize = 0;
        while k < n
            invariant
                n == self.files@.len(),
                k <= n,
                out@ == header + spec_files_bytes(self.files@.take(k as int)),
            decreases n - k,
        {
            let file = &self.files[k];
            push_u32_be(&mut out, file.seeders);
            push_u32_be(&mut out, file.completed);
            push_u32_be(&mut out, file.leechers);
            proof {
                lemma_files_bytes_snoc(self.files@, k as int);
                assert(out@ =~= header + spec_files_bytes(self.files@.take(k + 1)));
            }
            k = k + 1;
        }
        proof {
            assert(self.files@.take(n as int) =~= self.files@);
            assert(out@ =~= spec_scrape_response_bytes(self@));
            lemma_files_bytes_len(self.files@);
        }
        out
    }

    /// Decodes a datagram into the header fields and as many whole
    /// statistics records as it holds.
    pub fn from_bytes(b: &[u8]) -> (r: Result<ScrapeResponse, TrackerError>)
        ensures
            r is Ok <==> spec_parse_scrape_response(b@) is Some,
            r matches Ok(v) ==> spec_parse_scrape_response(b@) == Some(v@) && v.wf(),
            r matches Err(e) ==> e == (if b@.len() < 8 || (b@.len() - 8) % 12 != 0 {
                TrackerError::MalformedResponse
            } else {
                TrackerError::Protocol
            }),
    {
        if b.len() < 8 || (b.len() - 8) % 12 != 0 {
            return Err(TrackerError::MalformedResponse);
        }
        let action = read_u32_be(b, 0);
        if action != ACTION_SCRAPE {
            return Err(TrackerError::Protocol);
        }
        let transaction_id = read_u32_be(b, 4);
        let ghost t = b@.skip(8);
        let n = b.len();
        let mut files: Vec<ScrapeResponseFile> = Vec::new();
        let mut off: usize = 8;
        proof {
            assert(t.skip(0) =~= t);
            assert(files@ + spec_parse_files(t) =~= spec_parse_files(t));
        }
        while off < n
            invariant
                n == b@.len(),
                t == b@.skip(8),
                n >= 8,
                (n - 8) % 12 == 0,
                8 <= off <= n,
                (off - 8) % 12 == 0,
                spec_parse_files(t) == files@ + spec_parse_files(t.skip(off - 8)),
            decreases n - off,
        {
            assert(off + 12 <= n);
            let seeders = read_u32_be(b, off);
            let completed = read_u32_be(b, off + 4);
            let leechers = read_u32_be(b, off + 8);
            let ghost rest = t.skip(off - 8);
            proof {
                assert(rest.len() == n - off);
                assert(rest.len() % 12 == 0) by {
                    assert(rest.len() == (n - 8) - (off - 8));
                }
                assert(rest.subrange(0, 4) =~= b@.subrange(off as int, off + 4));
                assert(rest.subrange(4, 8) =~= b@.subrange(off + 4, off + 8));
                assert(rest.subrange(8, 12) =~= b@.subrange(off + 8, off + 12));
                assert(rest.skip(12) =~= t.skip(off - 8 + 12));
            }
            files.push(ScrapeResponseFile { seeders, completed, leechers });
            proof {
                assert(spec_parse_files(t) =~= files@ + spec_parse_files(t.skip(off + 12 - 8)));
            }
            off = off + 12;
        }
        proof {
            assert(t.skip(off - 8).len() == 0);
            assert(spec_parse_files(t.skip(off - 8)) =~= Seq::<ScrapeResponseFile>::empty());
            assert(files@ =~= spec_parse_files(t));
        }
        Ok(ScrapeResponse { action, transaction_id, files })
    }
}

/// Encoding then decoding a well-formed scrape response reconstructs its
/// field values.
pub proof fn lemma_scrape_response_roundtrip(f: ScrapeResponseFields)
    requires
        f.action == ACTION_SCRAPE,
    ensures
        spec_parse_scrape_response(spec_scrape_response_bytes(f)) == Some(f),
{
    let b = spec_scrape_response_bytes(f);
    lemma_files_bytes_len(f.files);
    lemma_u32_be_bytes_roundtrip(f.action);
    lemma_u32_be_bytes_roundtrip(f.transaction_id);
    assert(b.subrange(0, 4) =~= spec_u32_to_be_bytes(f.action));
    assert(b.subrange(4, 8) =~= spec_u32_to_be_bytes(f.transaction_id));
    assert(b.skip(8) =~= spec_files_bytes(f.files));
    lemma_files_roundtrip(f.files);
}

/// A datagram accepted by the scrape-response parser re-encodes to the
/// same bytes.
pub proof fn lemma_scrape_response_parse_inverts(b: Seq<u8>)
    requires
        spec_parse_scrape_response(b) is Some,
    ensures
        spec_scrape_response_bytes(spec_parse_scrape_response(b)->Some_0) == b,
{
    let f = spec_parse_scrape_response(b)->Some_0;
    lemma_u32_be_parse_inverts(b.subrange(0, 4));
    lemma_u32_be_parse_inverts(b.subrange(4, 8));
    assert(b.skip(8).len() % 12 == 0) by {
        assert(b.skip(8).len() == b.len() - 8);
    }
    lemma_files_parse_inverts(b.skip(8));
    assert(spec_scrape_response_bytes(f) =~= b.subrange(0, 4) + b.subrange(4, 8) + b.skip(8));
    assert(spec_scrape_response_bytes(f) =~= b);
}

/// The state of one UDP tracker exchange.  Connection and transaction
/// state lives entirely here; the caller owns the socket and performs the
/// sends and receives between transitions.
#[derive(Debug, Clone, Copy, PartialEq, Eq, Structural)]
pub enum UdpSessionState {
    /// No exchange in flight.
    Idle,
    /// A connect request with the given transaction id has been produced.
    AwaitingConnect { transaction_id: u32 },
    /// A connect response matched; its connection id may now be used.
    Connected { connection_id: u64 },
    /// An announce request is in flight on the connection.
    AwaitingAnnounce { connection_id: u64, transaction_id: u32 },
    /// An announce response matched; the peer list has been handed out.
    Announced { connection_id: u64 },
    /// A scrape request is in flight on the connection.
    AwaitingScrape { connection_id: u64, transaction_id: u32 },
    /// A scrape response matched; the statistics have been handed out.
    Scraped { connection_id: u64 },
}

impl UdpSessionState {
    /// States that hold a usable connection id.
    pub open spec fn spec_connection_id(self) -> Option<u64> {
        match self {
            UdpSessionState::Connected { connection_id } => Some(connection_id),
            UdpSessionState::AwaitingAnnounce { connection_id, .. } => Some(connection_id),
            UdpSessionState::Announced { connection_id } => Some(connection_id),
            UdpSessionState::AwaitingScrape { connection_id, .. } => Some(connection_id),
            UdpSessionState::Scraped { connection_id } => Some(connection_id),
            _ => None,
        }
    }
}

/// One UDP tracker session.  Each transition validates the response it is
/// handed against the request in flight; a mismatched response leaves the
/// state unchanged so the caller may keep waiting or retry.
#[derive(Debug, Clone, Copy, PartialEq, Eq, Structural)]
pub struct UdpSession {
    pub state: UdpSessionState,
}

impl UdpSession {
    /// A fresh, idle session.
    pub fn new() -> (s: UdpSession)
        ensures
            s.state == UdpSessionState::Idle,
    {
        UdpSession { state: UdpSessionState::Idle }
    }

    /// Starts (or restarts, after a timeout or an expired connection id)
    /// the connect exchange with a caller-supplied fresh transaction id,
    /// yielding the request to send.
    pub fn start_connect(&mut self, transaction_id: u32) -> (req: ConnectRequest)
        ensures
            req.wf(),
            req.transaction_id == transaction_id,
            final(self).state == (UdpSessionState::AwaitingConnect { transaction_id }),
    {
        self.state = UdpSessionState::AwaitingConnect { transaction_id };
        ConnectRequest::new(transaction_id)
    }

    /// Validates a connect response against the request in flight.  The
    /// response is accepted exactly when its action is the connect code
    /// and its transaction id equals the one just sent; any mismatch is a
    /// `Protocol` error that yields no connection id and leaves the
    /// session where it was.
    pub fn on_connect_response(&mut self, resp: &ConnectResponse) -> (r: Result<
        u64,
        TrackerError,
    >)
        requires
            old(self).state matches UdpSessionState::AwaitingConnect { .. },
        ensures
            r is Ok <==> resp.action == ACTION_CONNECT && old(self).state == (
            UdpSessionState::AwaitingConnect { transaction_id: resp.transaction_id }),
            r matches Ok(cid) ==> cid == resp.connection_id && final(self).state == (
            UdpSessionState::Connected { connection_id: resp.connection_id }),
            r matches Err(e) ==> e == TrackerError::Protocol && *final(self) == *old(self),
    {
        let expected = match self.state {
            UdpSessionState::AwaitingConnect { transaction_id } => transaction_id,
            _ => 0,
        };
        if resp.action != ACTION_CONNECT || resp.transaction_id != expected {
            return Err(TrackerError::Protocol);
        }
        self.state = UdpSessionState::Connected { connection_id: resp.connection_id };
        Ok(resp.connection_id)
    }

    /// Starts the announce exchange on an established connection with a
    /// caller-supplied fresh transaction id, yielding the connection id
    /// to put in the announce request.
    pub fn start_announce(&mut self, transaction_id: u32) -> (cid: u64)
        requires
            old(self).state.spec_connection_id() is Some,
        ensures
            Some(cid) == old(self).state.spec_connection_id(),
            final(self).state == (UdpSessionState::AwaitingAnnounce {
                connection_id: cid,
                transaction_id,
            }),
    {
        let cid = match self.state {
            UdpSessionState::Connected { connection_id } => connection_id,
            UdpSessionState::AwaitingAnnounce { connection_id, .. } => connection_id,
            UdpSessionState::Announced { connection_id } => connection_id,
            UdpSessionState::AwaitingScrape { connection_id, .. } => connection_id,
            UdpSessionState::Scraped { connection_id } => connection_id,
            _ => 0,
        };
        self.state = UdpSessionState::AwaitingAnnounce { connection_id: cid, transaction_id };
        cid
    }

    /// Validates an announce response against the request in flight:
    /// accepted exactly when its action is the announce code and its
    /// transaction id matches; any mismatch is a `Protocol` error that
    /// leaves the session where it was.
    pub fn on_announce_response(&mut self, resp: &AnnounceResponseV4) -> (r: Result<
        (),
        TrackerError,
    >)
        requires
            old(self).state matches UdpSessionState::AwaitingAnnounce { .. },
        ensures
            r is Ok <==> resp.action == ACTION_ANNOUNCE && old(self).state == (
            UdpSessionState::AwaitingAnnounce {
                connection_id: old(self).state.spec_connection_id()->Some_0,
                transaction_id: resp.transaction_id,
            }),
            r is Ok ==> final(self).state == (UdpSessionState::Announced {
                connection_id: old(self).state.spec_connection_id()->Some_0,
            }),
            r matches Err(e) ==> e == TrackerError::Protocol && *final(self) == *old(self),
    {
        let (cid, expected) = match self.state {
            UdpSessionState::AwaitingAnnounce { connection_id, transaction_id } => (
                connection_id,
                transaction_id,
            ),
            _ => (0, 0),
        };
        if resp.action != ACTION_ANNOUNCE || resp.transaction_id != expected {
            return Err(TrackerError::Protocol);
        }
        self.state = UdpSessionState::Announced { connection_id: cid };
        Ok(())
    }

    /// Starts the scrape exchange on an established connection with a
    /// caller-supplied fresh transaction id, yielding the connection id
    /// to put in the scrape request.
    pub fn start_scrape(&mut self, transaction_id: u32) -> (cid: u64)
        requires
            old(self).state.spec_connection_id() is Some,
        ensures
            Some(cid) == old(self).state.spec_connection_id(),
            final(self).state == (UdpSessionState::AwaitingScrape {
                connection_id: cid,
                transaction_id,
            }),
    {
        let cid = match self.state {
            UdpSessionState::Connected { connection_id } => connection_id,
            UdpSessionState::AwaitingAnnounce { connection_id, .. } => connection_id,
            UdpSessionState::Announced { connection_id } => connection_id,
            UdpSessionState::AwaitingScrape { connection_id, .. } => connection_id,
            UdpSessionState::Scraped { connection_id } => connection_id,
            _ => 0,
        };
        self.state = UdpSessionState::AwaitingScrape { connection_id: cid, transaction_id };
        cid
    }

    /// Validates a scrape response against the request in flight:
    /// accepted exactly when its action is the scrape code and its
    /// transaction id matches; any mismatch is a `Protocol` error that
    /// leaves the session where it was.
    pub fn on_scrape_response(&mut self, resp: &ScrapeResponse) -> (r: Result<(), TrackerError>)
        requires
            old(self).state matches UdpSessionState::AwaitingScrape { .. },
        ensures
            r is Ok <==> resp.action == ACTION_SCRAPE && old(self).state == (
            UdpSessionState::AwaitingScrape {
                connection_id: old(self).state.spec_connection_id()->Some_0,
                transaction_id: resp.transaction_id,
            }),
            r is Ok ==> final(self).state == (UdpSessionState::Scraped {
                connection_id: old(self).state.spec_connection_id()->Some_0,
            }),
            r matches Err(e) ==> e == TrackerError::Protocol && *final(self) == *old(self),
    {
        let (cid, expected) = match self.state {
            UdpSessionState::AwaitingScrape { connection_id, transaction_id } => (
                connection_id,
                transaction_id,
            ),
            _ => (0, 0),
        };
        if resp.action != ACTION_SCRAPE || resp.transaction_id != expected {
            return Err(TrackerError::Protocol);
        }
        self.state = UdpSessionState::Scraped { connection_id: cid };
        Ok(())
    }
}

} // verus!
