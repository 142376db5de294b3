//! Client-side implementation of the BitTorrent tracker protocol: canonical
//! bencode serialization of the info dictionary and its SHA-1 identity, the
//! UDP tracker wire codec (connect/announce/scrape packets), and the HTTP
//! announce codec (query-string construction and peer-list decoding).

pub mod bencode;
pub mod errors;
pub mod http;
pub mod identity;
pub mod ip;
pub mod text;
pub mod torrent;
pub mod udp;
pub mod urls;
pub mod wire;

pub use errors::TrackerError;
