use bt_tracker::identity::InfoHash;
use bt_tracker::torrent::AnnounceEvent;
use bt_tracker::udp::{
    AnnounceRequest, AnnounceResponsePeerV4, AnnounceResponseV4, ConnectRequest, ConnectResponse,
    ScrapeRequest, ScrapeResponse, ScrapeResponseFile, UdpSession, UdpSessionState,
};
use bt_tracker::TrackerError;

#[test]
fn connect_request_wire_layout() {
    let req = ConnectRequest::new(0xdeadbeef);
    let bytes = req.to_bytes();
    assert_eq!(
        bytes,
        vec![
            0x00, 0x00, 0x04, 0x17, 0x27, 0x10, 0x19, 0x80, // magic
            0x00, 0x00, 0x00, 0x00, // action: connect
            0xde, 0xad, 0xbe, 0xef, // transaction id
        ]
    );
}

#[test]
fn connect_request_roundtrip() {
    let req = ConnectRequest::new(7);
    let back = ConnectRequest::from_bytes(&req.to_bytes()).unwrap();
    assert_eq!(back, req);
}

#[test]
fn connect_request_rejects_bad_magic() {
    let req = ConnectRequest::new(7);
    let mut bytes = req.to_bytes();
    bytes[0] = 1;
    assert_eq!(ConnectRequest::from_bytes(&bytes), Err(TrackerError::Protocol));
}

#[test]
fn connect_request_rejects_bad_length() {
    assert_eq!(
        ConnectRequest::from_bytes(&[0u8; 15]),
        Err(TrackerError::MalformedResponse)
    );
}

#[test]
fn connect_response_roundtrip() {
    let resp = ConnectResponse::new(0x01020304, 0x1122334455667788);
    let bytes = resp.to_bytes();
    assert_eq!(
        bytes,
        vec![
            0x00, 0x00, 0x00, 0x00, // action: connect
            0x01, 0x02, 0x03, 0x04, // transaction id
            0x11, 0x22, 0x33, 0x44, 0x55, 0x66, 0x77, 0x88, // connection id
        ]
    );
    let back = ConnectResponse::from_bytes(&bytes).unwrap();
    assert_eq!(back, resp);
}

#[test]
fn announce_request_wire_layout_and_roundtrip() {
    let info_hash = [0xaa_u8; 20];
    let peer_id = [0xbb_u8; 20];
    let req = AnnounceRequest::new(
        0x0102030405060708,
        0x0a0b0c0d,
        &info_hash,
        &peer_id,
        1,
        2,
        3,
        AnnounceEvent::Started,
        Some(&[10, 0, 0, 1]),
        0x99999999,
        Some(-1),
        6881,
    );
    let bytes = req.to_bytes();
    assert_eq!(bytes.len(), 98);
    assert_eq!(&bytes[0..8], &[1, 2, 3, 4, 5, 6, 7, 8]);
    assert_eq!(&bytes[8..12], &[0, 0, 0, 1]); // action: announce
    assert_eq!(&bytes[12..16], &[0x0a, 0x0b, 0x0c, 0x0d]);
    assert_eq!(&bytes[16..36], &[0xaa_u8; 20][..]);
    assert_eq!(&bytes[36..56], &[0xbb_u8; 20][..]);
    assert_eq!(&bytes[56..64], &[0, 0, 0, 0, 0, 0, 0, 1]); // downloaded
    assert_eq!(&bytes[64..72], &[0, 0, 0, 0, 0, 0, 0, 2]); // left
    assert_eq!(&bytes[72..80], &[0, 0, 0, 0, 0, 0, 0, 3]); // uploaded
    assert_eq!(&bytes[80..84], &[0, 0, 0, 2]); // event: started
    assert_eq!(&bytes[84..88], &[10, 0, 0, 1]);
    assert_eq!(&bytes[88..92], &[0x99, 0x99, 0x99, 0x99]);
    assert_eq!(&bytes[92..96], &[0xff, 0xff, 0xff, 0xff]); // num_want: -1
    assert_eq!(&bytes[96..98], &[0x1a, 0xe1]); // port 6881
    let back = AnnounceRequest::from_bytes(&bytes).unwrap();
    assert_eq!(back, req);
}

#[test]
fn announce_request_defaults() {
    let req = AnnounceRequest::new(
        1,
        2,
        &[0u8; 20],
        &[0u8; 20],
        0,
        0,
        0,
        AnnounceEvent::Empty,
        None,
        0,
        None,
        0,
    );
    assert_eq!(req.ip, [0, 0, 0, 0]);
    assert_eq!(req.num_want, -1);
}

#[test]
fn announce_request_rejects_unknown_event_code() {
    let req = AnnounceRequest::new(
        1,
        2,
        &[0u8; 20],
        &[0u8; 20],
        0,
        0,
        0,
        AnnounceEvent::Empty,
        None,
        0,
        None,
        0,
    );
    let mut bytes = req.to_bytes();
    bytes[83] = 9;
    assert_eq!(AnnounceRequest::from_bytes(&bytes), Err(TrackerError::Protocol));
}

#[test]
fn announce_response_roundtrip_with_greedy_peers() {
    let peers = vec![
        AnnounceResponsePeerV4::new(&[1, 2, 3, 4], 80),
        AnnounceResponsePeerV4::new(&[185, 125, 190, 59], 6942),
    ];
    let resp = AnnounceResponseV4::new(0x42, 1800, 3, 5, peers);
    let bytes = resp.to_bytes();
    assert_eq!(bytes.len(), 20 + 2 * 6);
    let back = AnnounceResponseV4::from_bytes(&bytes).unwrap();
    assert_eq!(back, resp);
    assert_eq!(back.peers.len(), 2);
    assert_eq!(back.peers[1].ip, [185, 125, 190, 59]);
    assert_eq!(back.peers[1].port, 6942);
}

#[test]
fn announce_response_rejects_ragged_tail() {
    let resp = AnnounceResponseV4::new(0x42, 1800, 3, 5, Vec::new());
    let mut bytes = resp.to_bytes();
    bytes.push(0);
    assert_eq!(
        AnnounceResponseV4::from_bytes(&bytes),
        Err(TrackerError::MalformedResponse)
    );
}

#[test]
fn scrape_request_roundtrip() {
    let h1 = InfoHash::from_bytes(vec![0x11; 20]).unwrap();
    let h2 = InfoHash::from_bytes(vec![0x22; 20]).unwrap();
    let req = ScrapeRequest::new(0x0102030405060708, 0x0a0b0c0d, vec![h1, h2]);
    let bytes = req.to_bytes();
    assert_eq!(bytes.len(), 16 + 2 * 20);
    assert_eq!(&bytes[8..12], &[0, 0, 0, 2]); // action: scrape
    assert_eq!(&bytes[16..36], &[0x11_u8; 20][..]);
    assert_eq!(&bytes[36..56], &[0x22_u8; 20][..]);
    let back = ScrapeRequest::from_bytes(&bytes).unwrap();
    assert_eq!(back.connection_id, req.connection_id);
    assert_eq!(back.transaction_id, req.transaction_id);
    assert_eq!(back.info_hashes.len(), 2);
    assert_eq!(back.info_hashes[0], req.info_hashes[0]);
    assert_eq!(back.info_hashes[1], req.info_hashes[1]);
}

#[test]
fn scrape_response_roundtrip() {
    let resp = ScrapeResponse {
        action: 2,
        transaction_id: 9,
        files: vec![
            ScrapeResponseFile { seeders: 10, completed: 20, leechers: 30 },
            ScrapeResponseFile { seeders: 1, completed: 2, leechers: 3 },
        ],
    };
    let bytes = resp.to_bytes();
    assert_eq!(bytes.len(), 8 + 2 * 12);
    let back = ScrapeResponse::from_bytes(&bytes).unwrap();
    assert_eq!(back, resp);
}

#[test]
fn session_connect_announce_flow() {
    let mut session = UdpSession::new();
    assert_eq!(session.state, UdpSessionState::Idle);
    let req = session.start_connect(77);
    assert_eq!(req.transaction_id, 77);
    let resp = ConnectResponse::new(77, 0xfeed);
    let cid = session.on_connect_response(&resp).unwrap();
    assert_eq!(cid, 0xfeed);
    assert_eq!(session.state, UdpSessionState::Connected { connection_id: 0xfeed });
    let cid2 = session.start_announce(78);
    assert_eq!(cid2, 0xfeed);
    let announce = AnnounceResponseV4::new(78, 1800, 0, 0, Vec::new());
    session.on_announce_response(&announce).unwrap();
    assert_eq!(session.state, UdpSessionState::Announced { connection_id: 0xfeed });
}

#[test]
fn session_rejects_mismatched_connect_transaction() {
    let mut session = UdpSession::new();
    let _req = session.start_connect(77);
    let stale = ConnectResponse::new(76, 0xfeed);
    assert_eq!(session.on_connect_response(&stale), Err(TrackerError::Protocol));
    // The session still awaits the right response and has no connection id.
    assert_eq!(session.state, UdpSessionState::AwaitingConnect { transaction_id: 77 });
    let good = ConnectResponse::new(77, 0xbeef);
    assert_eq!(session.on_connect_response(&good), Ok(0xbeef));
}

#[test]
fn session_rejects_wrong_action() {
    let mut session = UdpSession::new();
    let _req = session.start_connect(5);
    let bad = ConnectResponse { action: 1, transaction_id: 5, connection_id: 1 };
    assert_eq!(session.on_connect_response(&bad), Err(TrackerError::Protocol));
}

#[test]
fn session_scrape_flow() {
    let mut session = UdpSession::new();
    let _req = session.start_connect(1);
    session
        .on_connect_response(&ConnectResponse::new(1, 42))
        .unwrap();
    let cid = session.start_scrape(2);
    assert_eq!(cid, 42);
    let resp = ScrapeResponse { action: 2, transaction_id: 2, files: Vec::new() };
    session.on_scrape_response(&resp).unwrap();
    assert_eq!(session.state, UdpSessionState::Scraped { connection_id: 42 });
    let stale = ScrapeResponse { action: 2, transaction_id: 9, files: Vec::new() };
    let mut session2 = UdpSession::new();
    let _ = session2.start_connect(1);
    session2
        .on_connect_response(&ConnectResponse::new(1, 42))
        .unwrap();
    session2.start_scrape(3);
    assert_eq!(session2.on_scrape_response(&stale), Err(TrackerError::Protocol));
}
