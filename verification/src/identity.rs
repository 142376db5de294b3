//! Identity types: the 20-byte SHA-1 info hash that names a torrent's
//! content, and the 20-byte peer id that names an announcing client.

use vstd::prelude::*;

use crate::errors::TrackerError;
use crate::text;
use vstd::string::StringSliceAdditionalSpecFns;

verus! {

/// The fixed eight-byte client tag that starts every generated peer id.
pub open spec fn spec_client_tag() -> Seq<u8> {
    seq![45u8, 67u8, 72u8, 48u8, 48u8, 48u8, 49u8, 45u8]
}

/// Relies on `rand::random`: draws the twelve-byte random suffix of a
/// freshly generated peer id.  Nothing is promised of the drawn bytes
/// beyond their number.
#[verifier::external_body]
fn random_suffix() -> (r: Vec<u8>)
    ensures
        r@.len() == 12,
{
    rand::random::<[u8; 12]>().to_vec()
}

/// A 20-byte client identifier: a fixed ASCII client tag followed by
/// twelve random bytes, or any 20 bytes supplied by the caller.
#[derive(Debug, Clone)]
pub struct PeerId {
    bytes: Vec<u8>,
}

impl View for PeerId {
    type V = Seq<u8>;

    closed spec fn view(&self) -> Seq<u8> {
        self.bytes@
    }
}

impl PeerId {
    /// A peer id always holds exactly 20 bytes.
    pub open spec fn wf(&self) -> bool {
        self@.len() == 20
    }

    /// Generates a fresh peer id: the client tag, then twelve random bytes.
    pub fn new() -> (p: PeerId)
        ensures
            p.wf(),
            p@.subrange(0, 8) == spec_client_tag(),
    {
        let mut bytes: Vec<u8> = Vec::new();
        bytes.push(45);
        bytes.push(67);
        bytes.push(72);
        bytes.push(48);
        bytes.push(48);
        bytes.push(48);
        bytes.push(49);
        bytes.push(45);
        let mut suffix = random_suffix();
        bytes.append(&mut suffix);
        proof {
            assert(bytes@.subrange(0, 8) =~= spec_client_tag());
        }
        PeerId { bytes }
    }

    /// Reads a peer id from a string that holds exactly 20 bytes; any
    /// other length is a `Format` error.
    pub fn try_from(s: &str) -> (r: Result<PeerId, TrackerError>)
        ensures
            r is Ok <==> s.spec_bytes().len() == 20,
            r matches Ok(p) ==> p.wf() && p@ == s.spec_bytes(),
            r matches Err(e) ==> e == TrackerError::Format,
    {
        let b = s.as_bytes();
        if b.len() != 20 {
            return Err(TrackerError::Format);
        }
        let mut bytes: Vec<u8> = Vec::new();
        let mut i: usize = 0;
        while i < 20
            invariant
                b@.len() == 20,
                i <= 20,
                bytes@ =~= b@.take(i as int),
            decreases 20 - i,
        {
            bytes.push(b[i]);
            i = i + 1;
        }
        assert(bytes@ =~= b@);
        Ok(PeerId { bytes })
    }

    /// Wraps bytes already known to number exactly 20.
    pub(crate) fn from_bytes_exact(bytes: Vec<u8>) -> (r: PeerId)
        requires
            bytes@.len() == 20,
        ensures
            r.wf(),
            r@ == bytes@,
    {
        PeerId { bytes }
    }

    /// Renders the peer id as text, one character per byte.  The peer id
    /// must be ASCII; ids made by `try_from` always are.
    pub fn to_string(&self) -> (r: String)
        requires
            forall|i: int| 0 <= i < self@.len() ==> (#[trigger] self@[i]) < 0x80,
        ensures
            r@ == text::spec_latin1_chars(self@),
    {
        text::iso_8859_1_decode(self.bytes.as_slice())
    }

    /// The raw 20 bytes of the peer id.
    pub fn as_bytes(&self) -> (r: &[u8])
        ensures
            r@ == self@,
    {
        self.bytes.as_slice()
    }
}

impl PartialEq for PeerId {
    fn eq(&self, other: &PeerId) -> (r: bool) {
        let r = self.bytes == other.bytes;
        proof {
            if r {
                assert(self.bytes@ =~= other.bytes@);
            }
        }
        r
    }
}

impl Eq for PeerId {

}

impl vstd::std_specs::cmp::PartialEqSpecImpl for PeerId {
    open spec fn obeys_eq_spec() -> bool {
        true
    }

    open spec fn eq_spec(&self, other: &PeerId) -> bool {
        self@ == other@
    }
}

/// The 20-byte SHA-1 digest of the canonical bencode serialization of an
/// info dictionary: the content identity shared with trackers and peers.
#[derive(Debug, Clone)]
pub struct InfoHash {
    hash: Vec<u8>,
}

impl View for InfoHash {
    type V = Seq<u8>;

    closed spec fn view(&self) -> Seq<u8> {
        self.hash@
    }
}

impl InfoHash {
    /// An info hash always holds exactly 20 bytes.
    pub open spec fn wf(&self) -> bool {
        self@.len() == 20
    }

    /// Wraps 20 raw digest bytes; any other length is a `Format` error.
    pub fn from_bytes(bytes: Vec<u8>) -> (r: Result<InfoHash, TrackerError>)
        ensures
            r is Ok <==> bytes@.len() == 20,
            r matches Ok(h) ==> h.wf() && h@ == bytes@,
            r matches Err(e) ==> e == TrackerError::Format,
    {
        if bytes.len() != 20 {
            return Err(TrackerError::Format);
        }
        Ok(InfoHash { hash: bytes })
    }

    /// Wraps bytes already known to number exactly 20.
    pub(crate) fn from_bytes_exact(bytes: Vec<u8>) -> (r: InfoHash)
        requires
            bytes@.len() == 20,
        ensures
            r.wf(),
            r@ == bytes@,
    {
        InfoHash { hash: bytes }
    }

    /// The raw 20 digest bytes.
    pub fn as_bytes(&self) -> (r: &[u8])
        ensures
            r@ == self@,
    {
        self.hash.as_slice()
    }

    /// Lowercase hexadecimal rendering of the digest, two characters per
    /// byte.
    pub fn to_hex_string(&self) -> (r: String)
        ensures
            r@ == text::spec_hex_lower(self@),
    {
        let mut s = String::new();
        text::push_hex_lower(&mut s, self.hash.as_slice());
        s
    }
}

impl PartialEq for InfoHash {
    fn eq(&self, other: &InfoHash) -> (r: bool) {
        let r = self.hash == other.hash;
        proof {
            if r {
                assert(self.hash@ =~= other.hash@);
            }
        }
        r
    }
}

impl Eq for InfoHash {

}

impl vstd::std_specs::cmp::PartialEqSpecImpl for InfoHash {
    open spec fn obeys_eq_spec() -> bool {
        true
    }

    open spec fn eq_spec(&self, other: &InfoHash) -> bool {
        self@ == other@
    }
}

} // verus!
