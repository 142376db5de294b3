use bt_tracker::http::{
    deserialize_compact_peers, deserialize_ipaddr, deserialize_peers6, HTTPAnnounceResponse,
    HTTPAnnounceResponsePeer, HTTPTracker,
};
use bt_tracker::identity::{InfoHash, PeerId};
use bt_tracker::ip::PeerIp;
use bt_tracker::torrent::AnnounceEvent;
use bt_tracker::TrackerError;

fn v4(a: u8, b: u8, c: u8, d: u8) -> PeerIp {
    PeerIp::V4 { a, b, c, d }
}

fn v6(g: [u16; 8]) -> PeerIp {
    PeerIp::V6 {
        g0: g[0],
        g1: g[1],
        g2: g[2],
        g3: g[3],
        g4: g[4],
        g5: g[5],
        g6: g[6],
        g7: g[7],
    }
}

#[test]
fn deserialize_http_response_non_compact() {
    let str = "d8:completei113e10:incompletei3e8:intervali1800e5:peersld2:ip14:185.125.190.594:porti6888eed2:ip39:2a02:1210:4831:9700:ba27:ebff:fe91:60cd4:porti51316eed2:ip22:2620:1d5:ffd:1702::2134:porti51413eeee";
    let resp = HTTPAnnounceResponse::from_bytes(str.as_bytes());
    assert!(resp.is_ok());
    assert_eq!(
        resp.unwrap(),
        HTTPAnnounceResponse {
            interval: 1800,
            peers: vec![
                HTTPAnnounceResponsePeer {
                    id: None,
                    ip: v4(185, 125, 190, 59),
                    port: 6888,
                },
                HTTPAnnounceResponsePeer {
                    id: None,
                    ip: v6([0x2a02, 0x1210, 0x4831, 0x9700, 0xba27, 0xebff, 0xfe91, 0x60cd]),
                    port: 51316,
                },
                HTTPAnnounceResponsePeer {
                    id: None,
                    ip: v6([0x2620, 0x01d5, 0x0ffd, 0x1702, 0, 0, 0, 0x0213]),
                    port: 51413,
                },
            ],
            peers6: None,
        }
    );
}

#[test]
fn deserialize_http_response_compact() {
    let bytes = b"d8:completei12e10:incompletei1e8:intervali1800e5:peers6:\xb9}\xbe;\x1b\x1ee";
    let resp = HTTPAnnounceResponse::from_bytes(bytes);
    assert!(resp.is_ok());
    assert_eq!(
        resp.unwrap(),
        HTTPAnnounceResponse {
            interval: 1800,
            peers: vec![HTTPAnnounceResponsePeer {
                id: None,
                ip: v4(185, 125, 190, 59),
                port: 6942
            }],
            peers6: None,
        }
    )
}

#[test]
fn minimal_compact_response() {
    let bytes = b"d8:intervali1800e5:peers6:\xb9}\xbe;\x1b\x1ee";
    let resp = HTTPAnnounceResponse::from_bytes(bytes).unwrap();
    assert_eq!(resp.interval, 1800);
    assert_eq!(resp.peers.len(), 1);
    assert_eq!(resp.peers[0].ip, v4(185, 125, 190, 59));
    assert_eq!(resp.peers[0].port, 6942);
    assert_eq!(resp.peers[0].id, None);
    assert_eq!(resp.peers6, None);
}

#[test]
fn compact_blob_decodes_each_chunk() {
    let blob = [1u8, 2, 3, 4, 0x1b, 0x1e, 10, 0, 0, 1, 0x00, 80];
    let peers = deserialize_compact_peers(&blob).unwrap();
    assert_eq!(peers.len(), 2);
    assert_eq!(peers[0].ip, v4(1, 2, 3, 4));
    assert_eq!(peers[0].port, 6942);
    assert_eq!(peers[1].ip, v4(10, 0, 0, 1));
    assert_eq!(peers[1].port, 80);
}

#[test]
fn compact_blob_empty_is_no_peers() {
    let peers = deserialize_compact_peers(&[]).unwrap();
    assert_eq!(peers.len(), 0);
}

#[test]
fn compact_blob_bad_length_rejected() {
    for n in [1usize, 5, 7, 11] {
        let blob = vec![0u8; n];
        assert_eq!(
            deserialize_compact_peers(&blob),
            Err(TrackerError::MalformedResponse)
        );
    }
}

#[test]
fn compact_v6_blob_decodes_each_chunk() {
    let mut blob = Vec::new();
    blob.extend_from_slice(&[
        0x2a, 0x02, 0x12, 0x10, 0x48, 0x31, 0x97, 0x00, 0xba, 0x27, 0xeb, 0xff, 0xfe, 0x91, 0x60,
        0xcd, 0xc8, 0x74,
    ]);
    blob.extend_from_slice(&[0, 0, 0, 0, 0, 0, 0, 0, 0, 0, 0, 0, 0, 0, 0, 1, 0, 80]);
    let peers = deserialize_peers6(&blob).unwrap();
    assert_eq!(peers.len(), 2);
    assert_eq!(
        peers[0].ip,
        v6([0x2a02, 0x1210, 0x4831, 0x9700, 0xba27, 0xebff, 0xfe91, 0x60cd])
    );
    assert_eq!(peers[0].port, 51316);
    assert_eq!(peers[1].ip, v6([0, 0, 0, 0, 0, 0, 0, 1]));
    assert_eq!(peers[1].port, 80);
}

#[test]
fn compact_v6_blob_bad_length_rejected() {
    for n in [1usize, 6, 17, 19] {
        let blob = vec![0u8; n];
        assert_eq!(
            deserialize_peers6(&blob),
            Err(TrackerError::MalformedResponse)
        );
    }
}

#[test]
fn response_with_peers6_field() {
    let mut bytes = Vec::new();
    bytes.extend_from_slice(b"d8:intervali900e5:peers6:\x01\x02\x03\x04\x00\x506:peers618:");
    bytes.extend_from_slice(&[0, 0, 0, 0, 0, 0, 0, 0, 0, 0, 0, 0, 0, 0, 0, 1, 0x1b, 0x1e]);
    bytes.push(b'e');
    let resp = HTTPAnnounceResponse::from_bytes(&bytes).unwrap();
    assert_eq!(resp.interval, 900);
    assert_eq!(resp.peers.len(), 1);
    let p6 = resp.peers6.unwrap();
    assert_eq!(p6.len(), 1);
    assert_eq!(p6[0].ip, v6([0, 0, 0, 0, 0, 0, 0, 1]));
    assert_eq!(p6[0].port, 6942);
}

#[test]
fn response_missing_interval_rejected() {
    let bytes = b"d5:peers0:e";
    assert_eq!(
        HTTPAnnounceResponse::from_bytes(bytes),
        Err(TrackerError::MalformedResponse)
    );
}

#[test]
fn response_bad_ip_string_rejected() {
    let bytes = b"d8:intervali1800e5:peersld2:ip8:10.0.0.x4:porti80eeee";
    assert_eq!(
        HTTPAnnounceResponse::from_bytes(bytes),
        Err(TrackerError::MalformedResponse)
    );
}

#[test]
fn non_compact_peer_id_kept() {
    let bytes = b"d8:intervali1800e5:peersld2:ip7:1.2.3.47:peer id20:-CH0001-abcdefghijkl4:porti80eeee";
    let resp = HTTPAnnounceResponse::from_bytes(bytes).unwrap();
    assert_eq!(resp.peers.len(), 1);
    let id = resp.peers[0].id.clone().unwrap();
    assert_eq!(id.as_bytes(), &b"-CH0001-abcdefghijkl"[..]);
}

#[test]
fn ipaddr_parsing() {
    assert_eq!(deserialize_ipaddr(b"185.125.190.59"), Ok(v4(185, 125, 190, 59)));
    assert_eq!(deserialize_ipaddr(b"0.0.0.0"), Ok(v4(0, 0, 0, 0)));
    assert_eq!(
        deserialize_ipaddr(b"::1"),
        Ok(v6([0, 0, 0, 0, 0, 0, 0, 1]))
    );
    assert_eq!(
        deserialize_ipaddr(b"2620:1d5:ffd:1702::213"),
        Ok(v6([0x2620, 0x01d5, 0x0ffd, 0x1702, 0, 0, 0, 0x0213]))
    );
    assert_eq!(
        deserialize_ipaddr(b"1:2:3:4:5:6:7:8"),
        Ok(v6([1, 2, 3, 4, 5, 6, 7, 8]))
    );
    assert_eq!(
        deserialize_ipaddr(b"256.0.0.1"),
        Err(TrackerError::MalformedResponse)
    );
    assert_eq!(
        deserialize_ipaddr(b"01.2.3.4"),
        Err(TrackerError::MalformedResponse)
    );
    assert_eq!(
        deserialize_ipaddr(b"1.2.3"),
        Err(TrackerError::MalformedResponse)
    );
    assert_eq!(
        deserialize_ipaddr(b"1:2:3"),
        Err(TrackerError::MalformedResponse)
    );
    assert_eq!(
        deserialize_ipaddr(b"1::2::3"),
        Err(TrackerError::MalformedResponse)
    );
    assert_eq!(
        deserialize_ipaddr(b"12345::1"),
        Err(TrackerError::MalformedResponse)
    );
}

fn test_hash() -> InfoHash {
    InfoHash::from_bytes(b"AAAAAAAAAAAAAAAAAAAA".to_vec()).unwrap()
}

fn test_peer_id() -> PeerId {
    PeerId::try_from("-CH0001-123456789012").unwrap()
}

#[test]
fn announce_query_plain() {
    let q = bt_tracker::http::announce_query(
        &test_hash(),
        &test_peer_id(),
        6881,
        1,
        2,
        3,
        None,
        AnnounceEvent::Empty,
    );
    assert_eq!(
        q,
        "info_hash=AAAAAAAAAAAAAAAAAAAA&peer_id=-CH0001-123456789012&port=6881&uploaded=1&downloaded=2&left=3&compact=1&no_peer_id=0&numwant=50"
    );
}

#[test]
fn announce_query_percent_encodes_raw_bytes() {
    let mut bytes = vec![0xb9, 0x7d, 0xbe, 0x3b, 0x1b, 0x1e];
    bytes.extend_from_slice(&[0u8; 14]);
    let hash = InfoHash::from_bytes(bytes).unwrap();
    let q = bt_tracker::http::announce_query(
        &hash,
        &test_peer_id(),
        6881,
        0,
        0,
        0,
        None,
        AnnounceEvent::Empty,
    );
    let expected_hash = "%B9%7D%BE%3B%1B%1E%00%00%00%00%00%00%00%00%00%00%00%00%00%00";
    assert!(q.starts_with(&format!("info_hash={expected_hash}&peer_id=")));
}

#[test]
fn announce_query_event_and_ip() {
    let q = bt_tracker::http::announce_query(
        &test_hash(),
        &test_peer_id(),
        6881,
        0,
        0,
        0,
        Some(PeerIp::V4 { a: 10, b: 0, c: 0, d: 1 }),
        AnnounceEvent::Started,
    );
    assert!(q.ends_with("&compact=1&no_peer_id=0&numwant=50&ip=10.0.0.1&event=started"));
    let q6 = bt_tracker::http::announce_query(
        &test_hash(),
        &test_peer_id(),
        6881,
        0,
        0,
        0,
        Some(v6([0x2a02, 0x1210, 0x4831, 0x9700, 0xba27, 0xebff, 0xfe91, 0x60cd])),
        AnnounceEvent::Stopped,
    );
    assert!(q6.ends_with(
        "&ip=2a02%3A1210%3A4831%3A9700%3Aba27%3Aebff%3Afe91%3A60cd&event=stopped"
    ));
}

#[test]
fn announce_url_joins_query() {
    let t = HTTPTracker::new("http://tracker.example/announce".to_string()).unwrap();
    let u = t.announce_url(
        &test_hash(),
        &test_peer_id(),
        6881,
        0,
        0,
        0,
        None,
        AnnounceEvent::Empty,
    );
    assert!(u.starts_with("http://tracker.example/announce?info_hash="));
    let t2 = HTTPTracker::new("http://tracker.example/announce?key=abc".to_string()).unwrap();
    let u2 = t2.announce_url(
        &test_hash(),
        &test_peer_id(),
        6881,
        0,
        0,
        0,
        None,
        AnnounceEvent::Empty,
    );
    assert!(u2.starts_with("http://tracker.example/announce?key=abc&info_hash="));
}

#[test]
fn tracker_rejects_bad_url() {
    assert!(HTTPTracker::new("not a url".to_string()).is_err());
    assert!(HTTPTracker::new("udp://tracker.example:8080".to_string()).is_ok());
}

#[test]
fn iso_8859_1_round_trip() {
    let bytes: Vec<u8> = (0u8..=255).collect();
    let text = bt_tracker::text::iso_8859_1_decode(&bytes);
    assert_eq!(text.chars().count(), 256);
    let back = bt_tracker::text::iso_8859_1_encode(&text);
    assert_eq!(back, bytes);
}

#[test]
fn iso_8859_1_decode_is_latin1() {
    let s = bt_tracker::text::iso_8859_1_decode(&[0x48, 0x69, 0xb9, 0xff]);
    let chars: Vec<char> = s.chars().collect();
    assert_eq!(chars, vec!['H', 'i', '\u{b9}', '\u{ff}']);
}
