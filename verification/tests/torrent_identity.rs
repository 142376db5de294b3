use std::collections::HashMap;

use bt_tracker::bencode::BValue;
use bt_tracker::identity::{InfoHash, PeerId};
use bt_tracker::torrent::{AnnounceEvent, AnnounceList, File, Info, Torrent};
use bt_tracker::TrackerError;

fn single_file_info() -> Info {
    Info {
        name: b"a".to_vec(),
        piece_length: 16384,
        pieces: vec![0u8; 20],
        length: Some(0),
        files: None,
    }
}

#[test]
fn golden_info_bencoding() {
    let mut expected = Vec::new();
    expected.extend_from_slice(b"d6:lengthi0e4:name1:a12:piece lengthi16384e6:pieces20:");
    expected.extend_from_slice(&[0u8; 20]);
    expected.push(b'e');
    assert_eq!(single_file_info().bencode(), expected);
}

#[test]
fn golden_info_hash() {
    let hash = single_file_info().info_hash().unwrap();
    assert_eq!(
        hash.to_hex_string(),
        "dbe20298fa9e6af6776ca31cbfd4a643fd13a7f7"
    );
}

#[test]
fn info_hash_is_deterministic() {
    let a = single_file_info().info_hash().unwrap();
    let b = single_file_info().info_hash().unwrap();
    assert_eq!(a, b);
    assert_eq!(a.as_bytes(), b.as_bytes());
}

#[test]
fn multi_file_info_bencoding() {
    let info = Info {
        name: b"dir".to_vec(),
        piece_length: 32768,
        pieces: vec![7u8; 20],
        length: None,
        files: Some(vec![
            File {
                path: vec![b"sub".to_vec(), b"x.bin".to_vec()],
                length: 5,
                md5sum: None,
            },
            File {
                path: vec![b"y.txt".to_vec()],
                length: -1,
                md5sum: Some(b"0123456789abcdef0123456789abcdef".to_vec()),
            },
        ]),
    };
    let mut expected = Vec::new();
    expected.extend_from_slice(b"d5:filesl");
    expected.extend_from_slice(b"d6:lengthi5e4:pathl3:sub5:x.binee");
    expected.extend_from_slice(
        b"d6:lengthi-1e6:md5sum32:0123456789abcdef0123456789abcdef4:pathl5:y.txtee",
    );
    expected.extend_from_slice(b"e4:name3:dir12:piece lengthi32768e6:pieces20:");
    expected.extend_from_slice(&[7u8; 20]);
    expected.push(b'e');
    assert_eq!(info.bencode(), expected);
}

#[test]
fn info_bencoding_matches_general_codec() {
    // The canonical serialization must agree with a general-purpose
    // bencode serializer fed the same dictionary.
    let info = single_file_info();
    let mut dict: HashMap<Vec<u8>, serde_bencode::value::Value> = HashMap::new();
    dict.insert(
        b"name".to_vec(),
        serde_bencode::value::Value::Bytes(b"a".to_vec()),
    );
    dict.insert(
        b"piece length".to_vec(),
        serde_bencode::value::Value::Int(16384),
    );
    dict.insert(
        b"pieces".to_vec(),
        serde_bencode::value::Value::Bytes(vec![0u8; 20]),
    );
    dict.insert(b"length".to_vec(), serde_bencode::value::Value::Int(0));
    let reference =
        serde_bencode::to_bytes(&serde_bencode::value::Value::Dict(dict)).unwrap();
    assert_eq!(info.bencode(), reference);
}

#[test]
fn bencode_value_round_trip() {
    let v = BValue::Dict(vec![
        (b"int".to_vec(), BValue::Int(-42)),
        (b"list".to_vec(), BValue::List(vec![BValue::Int(0), BValue::Bytes(b"ab".to_vec())])),
        (b"str".to_vec(), BValue::Bytes(Vec::new())),
    ]);
    let bytes = v.encode();
    assert_eq!(bytes, b"d3:inti-42e4:listli0e2:abe3:str0:e".to_vec());
    let back = BValue::parse(&bytes).unwrap();
    assert_eq!(back.encode(), bytes);
}

#[test]
fn bencode_parser_is_strict() {
    assert!(BValue::parse(b"i42e").is_ok());
    assert!(BValue::parse(b"i-42e").is_ok());
    assert!(BValue::parse(b"i0e").is_ok());
    assert_eq!(BValue::parse(b"i03e").err(), Some(TrackerError::MalformedResponse));
    assert_eq!(BValue::parse(b"i-0e").err(), Some(TrackerError::MalformedResponse));
    assert_eq!(BValue::parse(b"i e").err(), Some(TrackerError::MalformedResponse));
    assert_eq!(BValue::parse(b"ie").err(), Some(TrackerError::MalformedResponse));
    assert_eq!(BValue::parse(b"01:a").err(), Some(TrackerError::MalformedResponse));
    assert_eq!(BValue::parse(b"4:abc").err(), Some(TrackerError::MalformedResponse));
    assert_eq!(BValue::parse(b"i42ee").err(), Some(TrackerError::MalformedResponse));
    assert_eq!(BValue::parse(b"").err(), Some(TrackerError::MalformedResponse));
    assert_eq!(BValue::parse(b"l").err(), Some(TrackerError::MalformedResponse));
    assert_eq!(BValue::parse(b"dle").err(), Some(TrackerError::MalformedResponse));
    assert!(BValue::parse(b"le").is_ok());
    assert!(BValue::parse(b"de").is_ok());
    assert!(BValue::parse(b"d0:i0ee").is_ok());
    assert!(BValue::parse(b"i9223372036854775807e").is_ok());
    assert!(BValue::parse(b"i-9223372036854775808e").is_ok());
    assert_eq!(
        BValue::parse(b"i9223372036854775808e").err(),
        Some(TrackerError::MalformedResponse)
    );
}

#[test]
fn peer_id_generation_and_parsing() {
    let generated = PeerId::new();
    assert_eq!(generated.as_bytes().len(), 20);
    assert_eq!(&generated.as_bytes()[0..8], b"-CH0001-");

    let parsed = PeerId::try_from("-CH0001-123456789012").unwrap();
    assert_eq!(parsed.to_string(), "-CH0001-123456789012");
    assert_eq!(PeerId::try_from("short"), Err(TrackerError::Format));
    assert_eq!(
        PeerId::try_from("longer than twenty bytes"),
        Err(TrackerError::Format)
    );
}

#[test]
fn info_hash_hex_rendering() {
    let hash = InfoHash::from_bytes((0u8..20).collect()).unwrap();
    assert_eq!(
        hash.to_hex_string(),
        "000102030405060708090a0b0c0d0e0f10111213"
    );
    assert!(InfoHash::from_bytes(vec![0u8; 19]).is_err());
}

#[test]
fn announce_list_all_or_nothing() {
    let good = vec![
        vec!["http://a.example/announce".to_string()],
        vec![
            "udp://b.example:6969".to_string(),
            "https://c.example/x".to_string(),
        ],
    ];
    let list = AnnounceList::from_strings(good).unwrap();
    assert_eq!(list.list.len(), 2);

    let bad = vec![
        vec!["http://a.example/announce".to_string()],
        vec!["not a url at all".to_string()],
    ];
    assert_eq!(
        AnnounceList::from_strings(bad).err(),
        Some(TrackerError::Format)
    );
}

#[test]
fn announce_host_port_resolution_inputs() {
    let torrent = Torrent {
        info: single_file_info(),
        announce: Some("http://tracker.example:8080/announce".to_string()),
        nodes: None,
        encoding: None,
        httpseeds: None,
        announce_list: None,
        creation_date: None,
        comment: None,
        created_by: None,
    };
    let (host, port) = torrent.announce_host_port().unwrap();
    assert_eq!(host, "tracker.example");
    assert_eq!(port, 8080);

    let https = Torrent {
        announce: Some("https://tracker.example/announce".to_string()),
        ..torrent.clone()
    };
    assert_eq!(https.announce_host_port().unwrap().1, 443);

    let none = Torrent { announce: None, ..torrent.clone() };
    assert_eq!(
        none.announce_host_port().err(),
        Some(TrackerError::Resolution)
    );
}

#[test]
fn event_names_and_codes() {
    assert_eq!(AnnounceEvent::Empty.to_string(), "empty");
    assert_eq!(AnnounceEvent::Completed.to_string(), "completed");
    assert_eq!(AnnounceEvent::Started.to_string(), "started");
    assert_eq!(AnnounceEvent::Stopped.to_string(), "stopped");
    for e in [
        AnnounceEvent::Empty,
        AnnounceEvent::Completed,
        AnnounceEvent::Started,
        AnnounceEvent::Stopped,
    ] {
        assert_eq!(AnnounceEvent::from_code(e.code()), Some(e));
    }
    assert_eq!(AnnounceEvent::from_code(4), None);
}
