//! The torrent descriptor model: the announce event carried in every
//! announce, the info dictionary with its canonical serialization and
//! SHA-1 identity, and the descriptor with its announce URL lists.

use vstd::prelude::*;

use crate::bencode::{spec_bencode, spec_bencode_pairs, spec_bencode_seq, spec_bytes_lt,
    spec_keys_sorted, SpecBValue};
use crate::errors::TrackerError;
use crate::identity::InfoHash;
use crate::text::{push_decimal_bytes, push_int_decimal_bytes, spec_decimal_bytes,
    spec_int_decimal_bytes};
use crate::urls::{parse_url_host, parse_url_ok, parse_url_port, url_host_of, url_parse_ok,
    url_port_of};
use crate::wire::push_bytes;
use sha1::Digest;

verus! {

/// The event reported to a tracker in an announce.  `Empty` is the
/// protocol default and is omitted from HTTP announces.
#[derive(Debug, Clone, Copy, PartialEq, Eq, Structural)]
pub enum AnnounceEvent {
    Empty,
    Completed,
    Started,
    Stopped,
}

impl AnnounceEvent {
    /// The numeric code carried in the UDP announce packet.
    pub open spec fn spec_code(self) -> u32 {
        match self {
            AnnounceEvent::Empty => 0,
            AnnounceEvent::Completed => 1,
            AnnounceEvent::Started => 2,
            AnnounceEvent::Stopped => 3,
        }
    }

    /// The event denoted by a UDP event code, if any.
    pub open spec fn spec_from_code(c: u32) -> Option<AnnounceEvent> {
        if c == 0 {
            Some(AnnounceEvent::Empty)
        } else if c == 1 {
            Some(AnnounceEvent::Completed)
        } else if c == 2 {
            Some(AnnounceEvent::Started)
        } else if c == 3 {
            Some(AnnounceEvent::Stopped)
        } else {
            None
        }
    }

    /// The lowercase name carried in an HTTP announce query.
    pub open spec fn spec_name(self) -> Seq<char> {
        match self {
            AnnounceEvent::Empty => seq!['e', 'm', 'p', 't', 'y'],
            AnnounceEvent::Completed => seq!['c', 'o', 'm', 'p', 'l', 'e', 't', 'e', 'd'],
            AnnounceEvent::Started => seq!['s', 't', 'a', 'r', 't', 'e', 'd'],
            AnnounceEvent::Stopped => seq!['s', 't', 'o', 'p', 'p', 'e', 'd'],
        }
    }

    /// Computes the numeric UDP code of the event.
    pub fn code(&self) -> (c: u32)
        ensures
            c == self.spec_code(),
    {
        match self {
            AnnounceEvent::Empty => 0,
            AnnounceEvent::Completed => 1,
            AnnounceEvent::Started => 2,
            AnnounceEvent::Stopped => 3,
        }
    }

    /// Maps a numeric UDP code back to the event; unknown codes yield
    /// `None`.
    pub fn from_code(c: u32) -> (r: Option<AnnounceEvent>)
        ensures
            r == AnnounceEvent::spec_from_code(c),
    {
        if c == 0 {
            Some(AnnounceEvent::Empty)
        } else if c == 1 {
            Some(AnnounceEvent::Completed)
        } else if c == 2 {
            Some(AnnounceEvent::Started)
        } else if c == 3 {
            Some(AnnounceEvent::Stopped)
        } else {
            None
        }
    }

    /// Renders the lowercase event name.
    pub fn to_string(&self) -> (r: String)
        ensures
            r@ == self.spec_name(),
    {
        match self {
            AnnounceEvent::Empty => {
                let s = String::from_str("empty");
                proof {
                    reveal_strlit("empty");
                    assert(s@ =~= self.spec_name());
                }
                s
            },
            AnnounceEvent::Completed => {
                let s = String::from_str("completed");
                proof {
                    reveal_strlit("completed");
                    assert(s@ =~= self.spec_name());
                }
                s
            },
            AnnounceEvent::Started => {
                let s = String::from_str("started");
                proof {
                    reveal_strlit("started");
                    assert(s@ =~= self.spec_name());
                }
                s
            },
            AnnounceEvent::Stopped => {
                let s = String::from_str("stopped");
                proof {
                    reveal_strlit("stopped");
                    assert(s@ =~= self.spec_name());
                }
                s
            },
        }
    }
}

/// Every event's code maps back to that event.
pub proof fn lemma_event_code_roundtrip(e: AnnounceEvent)
    ensures
        AnnounceEvent::spec_from_code(e.spec_code()) == Some(e),
{
}

/// Every known event code is the code of the event it denotes.
pub proof fn lemma_event_from_code_roundtrip(c: u32)
    requires
        AnnounceEvent::spec_from_code(c) is Some,
    ensures
        AnnounceEvent::spec_from_code(c)->Some_0.spec_code() == c,
{
}

/// The bencode byte-string framing of raw bytes: decimal length, colon,
/// bytes.
pub open spec fn spec_bstr(b: Seq<u8>) -> Seq<u8> {
    spec_decimal_bytes(b.len()) + seq![58u8] + b
}

/// The bencode integer framing: `i`, decimal value, `e`.
pub open spec fn spec_bint(i: int) -> Seq<u8> {
    seq![105u8] + spec_int_decimal_bytes(i) + seq![101u8]
}

/// Appends the bencode byte-string framing of `b` to `out`.
fn push_bstr(out: &mut Vec<u8>, b: &[u8])
    ensures
        final(out)@ == old(out)@ + spec_bstr(b@),
{
    push_decimal_bytes(out, b.len() as u64);
    out.push(58);
    push_bytes(out, b);
    assert(out@ =~= old(out)@ + spec_bstr(b@));
}

/// Appends the bencode integer framing of `i` to `out`.
fn push_bint(out: &mut Vec<u8>, i: i64)
    ensures
        final(out)@ == old(out)@ + spec_bint(i as int),
{
    out.push(105);
    push_int_decimal_bytes(out, i);
    out.push(101);
    assert(out@ =~= old(out)@ + spec_bint(i as int));
}

/// The field values of one file record of a multi-file torrent.
pub struct SpecFile {
    pub path: Seq<Seq<u8>>,
    pub length: int,
    pub md5sum: Option<Seq<u8>>,
}

/// One file of a multi-file torrent: its path components, length in
/// bytes, and optional checksum, all as the raw bytes of the torrent
/// file.
#[derive(Debug, Clone, PartialEq, Eq)]
pub struct File {
    pub path: Vec<Vec<u8>>,
    pub length: i64,
    pub md5sum: Option<Vec<u8>>,
}

impl View for File {
    type V = SpecFile;

    open spec fn view(&self) -> SpecFile {
        SpecFile {
            path: self.path@.map_values(|p: Vec<u8>| p@),
            length: self.length as int,
            md5sum: match self.md5sum {
                Some(m) => Some(m@),
                None => None,
            },
        }
    }
}

/// The field values of an info dictionary.
pub struct SpecInfo {
    pub name: Seq<u8>,
    pub piece_length: int,
    pub pieces: Seq<u8>,
    pub length: Option<int>,
    pub files: Option<Seq<SpecFile>>,
}

/// The info dictionary of a torrent: name, piece length, concatenated
/// piece hashes, and either a single total length or per-file records.
/// Exactly one of `length` and `files` is present in a well-formed info
/// dictionary.
#[derive(Debug, Clone, PartialEq, Eq)]
pub struct Info {
    pub name: Vec<u8>,
    pub piece_length: i64,
    pub pieces: Vec<u8>,
    pub length: Option<i64>,
    pub files: Option<Vec<File>>,
}

impl View for Info {
    type V = SpecInfo;

    open spec fn view(&self) -> SpecInfo {
        SpecInfo {
            name: self.name@,
            piece_length: self.piece_length as int,
            pieces: self.pieces@,
            length: match self.length {
                Some(l) => Some(l as int),
                None => None,
            },
            files: match self.files {
                Some(fs) => Some(fs@.map_values(|f: File| f@)),
                None => None,
            },
        }
    }
}

/// The bencode list of a file's path components, in order.
pub open spec fn spec_path_bytes(s: Seq<Seq<u8>>) -> Seq<u8>
    decreases s,
{
    if s.len() == 0 {
        Seq::<u8>::empty()
    } else {
        spec_bstr(s[0]) + spec_path_bytes(s.drop_first())
    }
}

proof fn lemma_path_bytes_snoc(s: Seq<Seq<u8>>, i: int)
    requires
        0 <= i < s.len(),
    ensures
        spec_path_bytes(s.take(i + 1)) == spec_path_bytes(s.take(i)) + spec_bstr(s[i]),
    decreases i,
{
    if i == 0 {
        assert(s.take(1) =~= seq![s[0]]);
        assert(s.take(1).drop_first() =~= Seq::<Seq<u8>>::empty());
        assert(s.take(0) =~= Seq::<Seq<u8>>::empty());
        assert(spec_path_bytes(s.take(i + 1)) =~= spec_path_bytes(s.take(i)) + spec_bstr(s[i]));
    } else {
        lemma_path_bytes_snoc(s.drop_first(), i - 1);
        assert(s.take(i + 1).drop_first() =~= s.drop_first().take(i));
        assert(s.take(i).drop_first() =~= s.drop_first().take(i - 1));
        assert(spec_path_bytes(s.take(i + 1)) =~= spec_path_bytes(s.take(i)) + spec_bstr(s[i]));
    }
}

/// The canonical bencode dictionary of one file record: keys `length`,
/// `md5sum` (when present) and `path` in sorted order.
pub open spec fn spec_file_bytes(f: SpecFile) -> Seq<u8> {
    seq![100u8] + spec_bstr(seq![108u8, 101u8, 110u8, 103u8, 116u8, 104u8]) + spec_bint(f.length)
        + (match f.md5sum {
        Some(m) => spec_bstr(seq![109u8, 100u8, 53u8, 115u8, 117u8, 109u8]) + spec_bstr(m),
        None => Seq::<u8>::empty(),
    }) + spec_bstr(seq![112u8, 97u8, 116u8, 104u8]) + seq![108u8] + spec_path_bytes(f.path)
        + seq![101u8] + seq![101u8]
}

/// The concatenated file dictionaries of a multi-file torrent.
pub open spec fn spec_files_bytes(s: Seq<SpecFile>) -> Seq<u8>
    decreases s,
{
    if s.len() == 0 {
        Seq::<u8>::empty()
    } else {
        spec_file_bytes(s[0]) + spec_files_bytes(s.drop_first())
    }
}

proof fn lemma_files_bytes_snoc(s: Seq<SpecFile>, i: int)
    requires
        0 <= i < s.len(),
    ensures
        spec_files_bytes(s.take(i + 1)) == spec_files_bytes(s.take(i)) + spec_file_bytes(s[i]),
    decreases i,
{
    if i == 0 {
        assert(s.take(1) =~= seq![s[0]]);
        assert(s.take(1).drop_first() =~= Seq::<SpecFile>::empty());
        assert(s.take(0) =~= Seq::<SpecFile>::empty());
        assert(spec_files_bytes(s.take(i + 1)) =~= spec_files_bytes(s.take(i))
            + spec_file_bytes(s[i]));
    } else {
        lemma_files_bytes_snoc(s.drop_first(), i - 1);
        assert(s.take(i + 1).drop_first() =~= s.drop_first().take(i));
        assert(s.take(i).drop_first() =~= s.drop_first().take(i - 1));
        assert(spec_files_bytes(s.take(i + 1)) =~= spec_files_bytes(s.take(i))
            + spec_file_bytes(s[i]));
    }
}

/// The canonical bencode serialization of an info dictionary: keys
/// `files` (multi-file), `length` (single-file), `name`, `piece length`
/// and `pieces`, in lexicographic key order, absent fields omitted.
/// This byte sequence is what the info hash digests.
pub open spec fn spec_info_bytes(v: SpecInfo) -> Seq<u8> {
    seq![100u8] + (match v.files {
        Some(fs) => spec_bstr(seq![102u8, 105u8, 108u8, 101u8, 115u8]) + seq![108u8]
            + spec_files_bytes(fs) + seq![101u8],
        None => Seq::<u8>::empty(),
    }) + (match v.length {
        Some(l) => spec_bstr(seq![108u8, 101u8, 110u8, 103u8, 116u8, 104u8]) + spec_bint(l),
        None => Seq::<u8>::empty(),
    }) + spec_bstr(seq![110u8, 97u8, 109u8, 101u8]) + spec_bstr(v.name) + spec_bstr(
        seq![
            112u8,
            105u8,
            101u8,
            99u8,
            101u8,
            32u8,
            108u8,
            101u8,
            110u8,
            103u8,
            116u8,
            104u8,
        ],
    ) + spec_bint(v.piece_length) + spec_bstr(seq![112u8, 105u8, 101u8, 99u8, 101u8, 115u8])
        + spec_bstr(v.pieces) + seq![101u8]
}

/// Appends one file's canonical dictionary to `out`.
#[verifier::loop_isolation(false)]
fn push_file_bytes(out: &mut Vec<u8>, f: &File)
    ensures
        final(out)@ == old(out)@ + spec_file_bytes(f@),
{
    out.push(100);
    let k_length: [u8; 6] = [108, 101, 110, 103, 116, 104];
    push_bstr(out, k_length.as_slice());
    push_bint(out, f.length);
    match &f.md5sum {
        Some(m) => {
            let k_md5sum: [u8; 6] = [109, 100, 53, 115, 117, 109];
            push_bstr(out, k_md5sum.as_slice());
            push_bstr(out, m.as_slice());
        },
        None => {
        },
    }
    let k_path: [u8; 4] = [112, 97, 116, 104];
    push_bstr(out, k_path.as_slice());
    out.push(108);
    let ghost mark = out@;
    let ghost views = f@.path;
    let n = f.path.len();
    let mut k: usize = 0;
    proof {
        assert(views.take(0) =~= Seq::<Seq<u8>>::empty());
    }
    while k < n
        invariant
            n == f.path@.len(),
            k <= n,
            out@ == mark + spec_path_bytes(views.take(k as int)),
        decreases n - k,
    {
        push_bstr(out, f.path[k].as_slice());
        proof {
            lemma_path_bytes_snoc(views, k as int);
            assert(out@ =~= mark + spec_path_bytes(views.take(k + 1)));
        }
        k = k + 1;
    }
    out.push(101);
    out.push(101);
    proof {
        assert(views.take(n as int) =~= views);
        assert(out@ =~= old(out)@ + spec_file_bytes(f@));
    }
}

/// The name of the 20-byte digest that `sha1::Sha1` computes for a byte
/// string.  The digest depends on the input bytes alone.
pub uninterp spec fn sha1_of(bytes: Seq<u8>) -> Seq<u8>;

/// Relies on `sha1::Sha1` through `Digest::digest`: computes the SHA-1
/// digest, which is always 20 bytes and depends on the input alone.
#[verifier::external_body]
fn sha1_digest(bytes: &[u8]) -> (r: Vec<u8>)
    ensures
        r@ == sha1_of(bytes@),
        r@.len() == 20,
{
    sha1::Sha1::digest(bytes).to_vec()
}

impl Info {
    /// A well-formed info dictionary has exactly one of `length` and
    /// `files`.
    pub open spec fn wf(&self) -> bool {
        (self.length is Some) != (self.files is Some)
    }

    /// Serializes the info dictionary to its canonical bencode bytes.
    #[verifier::loop_isolation(false)]
    #[verifier::rlimit(60)]
    pub fn bencode(&self) -> (r: Vec<u8>)
        ensures
            r@ == spec_info_bytes(self@),
    {
        let mut out: Vec<u8> = Vec::new();
        out.push(100);
        match &self.files {
            Some(fs) => {
                let k_files: [u8; 5] = [102, 105, 108, 101, 115];
                push_bstr(&mut out, k_files.as_slice());
                out.push(108);
                let ghost mark = out@;
                let ghost views = fs@.map_values(|f: File| f@);
                let n = fs.len();
                let mut k: usize = 0;
                proof {
                    assert(views.take(0) =~= Seq::<SpecFile>::empty());
                }
                while k < n
                    invariant
                        n == fs@.len(),
                        k <= n,
                        out@ == mark + spec_files_bytes(views.take(k as int)),
                    decreases n - k,
                {
                    push_file_bytes(&mut out, &fs[k]);
                    proof {
                        lemma_files_bytes_snoc(views, k as int);
                        assert(out@ =~= mark + spec_files_bytes(views.take(k + 1)));
                    }
                    k = k + 1;
                }
                out.push(101);
                proof {
                    assert(views.take(n as int) =~= views);
                }
            },
            None => {
            },
        }
        match self.length {
            Some(l) => {
                let k_length: [u8; 6] = [108, 101, 110, 103, 116, 104];
                push_bstr(&mut out, k_length.as_slice());
                push_bint(&mut out, l);
            },
            None => {
            },
        }
        let k_name: [u8; 4] = [110, 97, 109, 101];
        push_bstr(&mut out, k_name.as_slice());
        push_bstr(&mut out, self.name.as_slice());
        let k_piece_length: [u8; 12] = [112, 105, 101, 99, 101, 32, 108, 101, 110, 103, 116, 104];
        push_bstr(&mut out, k_piece_length.as_slice());
        push_bint(&mut out, self.piece_length);
        let k_pieces: [u8; 6] = [112, 105, 101, 99, 101, 115];
        push_bstr(&mut out, k_pieces.as_slice());
        push_bstr(&mut out, self.pieces.as_slice());
        out.push(101);
        assert(out@ =~= spec_info_bytes(self@));
        out
    }

    /// Computes the content identity: the SHA-1 digest of the canonical
    /// bencode serialization of the info dictionary.  The canonical
    /// serialization is total, so this never fails.
    pub fn info_hash(&self) -> (r: Result<InfoHash, TrackerError>)
        ensures
            r is Ok,
            r matches Ok(h) ==> h.wf() && h@ == sha1_of(spec_info_bytes(self@)),
    {
        let encoded = self.bencode();
        let digest = sha1_digest(encoded.as_slice());
        Ok(InfoHash::from_bytes_exact(digest))
    }
}

/// The info hash is deterministic: info dictionaries with equal field
/// values serialize to the same canonical bytes and digest to the same
/// 20 bytes, in every call.
pub proof fn lemma_info_hash_deterministic(a: Info, b: Info)
    requires
        a@ == b@,
    ensures
        spec_info_bytes(a@) == spec_info_bytes(b@),
        sha1_of(spec_info_bytes(a@)) == sha1_of(spec_info_bytes(b@)),
{
}

/// The path components of a file as bencode byte strings.
pub open spec fn spec_path_values(s: Seq<Seq<u8>>) -> Seq<SpecBValue>
    decreases s,
{
    if s.len() == 0 {
        Seq::<SpecBValue>::empty()
    } else {
        seq![SpecBValue::Bytes(s[0])] + spec_path_values(s.drop_first())
    }
}

/// One file record as a bencode dictionary entry list, keys in
/// lexicographic order.
pub open spec fn spec_file_entries(f: SpecFile) -> Seq<(Seq<u8>, SpecBValue)> {
    seq![
        (seq![108u8, 101u8, 110u8, 103u8, 116u8, 104u8], SpecBValue::Int(f.length)),
    ] + (match f.md5sum {
        Some(m) => seq![(seq![109u8, 100u8, 53u8, 115u8, 117u8, 109u8], SpecBValue::Bytes(m))],
        None => Seq::<(Seq<u8>, SpecBValue)>::empty(),
    }) + seq![
        (seq![112u8, 97u8, 116u8, 104u8], SpecBValue::List(spec_path_values(f.path))),
    ]
}

/// The file records as bencode dictionaries.
pub open spec fn spec_file_values(s: Seq<SpecFile>) -> Seq<SpecBValue>
    decreases s,
{
    if s.len() == 0 {
        Seq::<SpecBValue>::empty()
    } else {
        seq![SpecBValue::Dict(spec_file_entries(s[0]))] + spec_file_values(s.drop_first())
    }
}

/// The info dictionary as a bencode entry list: its present fields under
/// their protocol keys, in lexicographic key order.
pub open spec fn spec_info_entries(v: SpecInfo) -> Seq<(Seq<u8>, SpecBValue)> {
    (match v.files {
        Some(fs) => seq![
            (seq![102u8, 105u8, 108u8, 101u8, 115u8], SpecBValue::List(spec_file_values(fs))),
        ],
        None => Seq::<(Seq<u8>, SpecBValue)>::empty(),
    }) + (match v.length {
        Some(l) => seq![
            (seq![108u8, 101u8, 110u8, 103u8, 116u8, 104u8], SpecBValue::Int(l)),
        ],
        None => Seq::<(Seq<u8>, SpecBValue)>::empty(),
    }) + seq![
        (seq![110u8, 97u8, 109u8, 101u8], SpecBValue::Bytes(v.name)),
        (
            seq![
                112u8,
                105u8,
                101u8,
                99u8,
                101u8,
                32u8,
                108u8,
                101u8,
                110u8,
                103u8,
                116u8,
                104u8,
            ],
            SpecBValue::Int(v.piece_length),
        ),
        (seq![112u8, 105u8, 101u8, 99u8, 101u8, 115u8], SpecBValue::Bytes(v.pieces)),
    ]
}

/// Peeling one entry off an encoded entry list.
proof fn lemma_pairs_cons(k: Seq<u8>, val: SpecBValue, rest: Seq<(Seq<u8>, SpecBValue)>)
    ensures
        spec_bencode_pairs(seq![(k, val)] + rest) == crate::text::spec_decimal_bytes(k.len())
            + seq![58u8] + k + spec_bencode(val) + spec_bencode_pairs(rest),
{
    let e = seq![(k, val)] + rest;
    assert(e[0] == (k, val));
    assert(e.drop_first() =~= rest);
}

/// Path components encode as their byte-string list.
proof fn lemma_path_values_bytes(s: Seq<Seq<u8>>)
    ensures
        spec_bencode_seq(spec_path_values(s)) == spec_path_bytes(s),
    decreases s,
{
    if s.len() > 0 {
        lemma_path_values_bytes(s.drop_first());
        let l = spec_path_values(s);
        assert(l[0] == SpecBValue::Bytes(s[0]));
        assert(l.drop_first() =~= spec_path_values(s.drop_first()));
        assert(spec_bencode(SpecBValue::Bytes(s[0])) == spec_bstr(s[0]));
        assert(spec_bencode_seq(l) =~= spec_path_bytes(s));
    } else {
        assert(spec_path_values(s) =~= Seq::<SpecBValue>::empty());
        assert(spec_bencode_seq(spec_path_values(s)) =~= spec_path_bytes(s));
    }
}

/// One file record's bytes are the encoding of its dictionary value.
proof fn lemma_file_entries_bytes(f: SpecFile)
    ensures
        spec_bencode(SpecBValue::Dict(spec_file_entries(f))) == spec_file_bytes(f),
{
    lemma_path_values_bytes(f.path);
    let k_length = seq![108u8, 101u8, 110u8, 103u8, 116u8, 104u8];
    let k_md5sum = seq![109u8, 100u8, 53u8, 115u8, 117u8, 109u8];
    let k_path = seq![112u8, 97u8, 116u8, 104u8];
    let path_entry = seq![(k_path, SpecBValue::List(spec_path_values(f.path)))];
    assert(path_entry.drop_first() =~= Seq::<(Seq<u8>, SpecBValue)>::empty());
    match f.md5sum {
        Some(m) => {
            let e = spec_file_entries(f);
            assert(e =~= seq![(k_length, SpecBValue::Int(f.length))] + (seq![
                (k_md5sum, SpecBValue::Bytes(m)),
            ] + path_entry));
            lemma_pairs_cons(
                k_length,
                SpecBValue::Int(f.length),
                seq![(k_md5sum, SpecBValue::Bytes(m))] + path_entry,
            );
            lemma_pairs_cons(k_md5sum, SpecBValue::Bytes(m), path_entry);
            lemma_pairs_cons(
                k_path,
                SpecBValue::List(spec_path_values(f.path)),
                Seq::<(Seq<u8>, SpecBValue)>::empty(),
            );
            assert(path_entry =~= seq![(k_path, SpecBValue::List(spec_path_values(f.path)))]
                + Seq::<(Seq<u8>, SpecBValue)>::empty());
            assert(spec_bencode(SpecBValue::Dict(spec_file_entries(f))) =~= spec_file_bytes(f));
        },
        None => {
            let e = spec_file_entries(f);
            assert(e =~= seq![(k_length, SpecBValue::Int(f.length))] + path_entry);
            lemma_pairs_cons(k_length, SpecBValue::Int(f.length), path_entry);
            lemma_pairs_cons(
                k_path,
                SpecBValue::List(spec_path_values(f.path)),
                Seq::<(Seq<u8>, SpecBValue)>::empty(),
            );
            assert(path_entry =~= seq![(k_path, SpecBValue::List(spec_path_values(f.path)))]
                + Seq::<(Seq<u8>, SpecBValue)>::empty());
            assert(spec_bencode(SpecBValue::Dict(spec_file_entries(f))) =~= spec_file_bytes(f));
        },
    }
}

/// The file records' bytes are the encodings of their dictionary values.
proof fn lemma_file_values_bytes(s: Seq<SpecFile>)
    ensures
        spec_bencode_seq(spec_file_values(s)) == spec_files_bytes(s),
    decreases s,
{
    if s.len() > 0 {
        lemma_file_values_bytes(s.drop_first());
        lemma_file_entries_bytes(s[0]);
        let l = spec_file_values(s);
        assert(l[0] == SpecBValue::Dict(spec_file_entries(s[0])));
        assert(l.drop_first() =~= spec_file_values(s.drop_first()));
        assert(spec_bencode_seq(l) =~= spec_files_bytes(s));
    } else {
        assert(spec_file_values(s) =~= Seq::<SpecBValue>::empty());
        assert(spec_bencode_seq(spec_file_values(s)) =~= spec_files_bytes(s));
    }
}

/// The canonical info serialization is exactly the bencode encoding of
/// the info dictionary value: the bytes that are hashed are genuine
/// bencode with the keys in lexicographic order.
#[verifier::rlimit(80)]
pub proof fn lemma_info_bytes_is_bencode(v: SpecInfo)
    ensures
        spec_info_bytes(v) == spec_bencode(SpecBValue::Dict(spec_info_entries(v))),
{
    let k_files = seq![102u8, 105u8, 108u8, 101u8, 115u8];
    let k_length = seq![108u8, 101u8, 110u8, 103u8, 116u8, 104u8];
    let k_name = seq![110u8, 97u8, 109u8, 101u8];
    let k_piece_length = seq![
        112u8,
        105u8,
        101u8,
        99u8,
        101u8,
        32u8,
        108u8,
        101u8,
        110u8,
        103u8,
        116u8,
        104u8,
    ];
    let k_pieces = seq![112u8, 105u8, 101u8, 99u8, 101u8, 115u8];
    let tail2 = seq![(k_pieces, SpecBValue::Bytes(v.pieces))] + Seq::<
        (Seq<u8>, SpecBValue),
    >::empty();
    let tail1 = seq![(k_piece_length, SpecBValue::Int(v.piece_length))] + tail2;
    let tail0 = seq![(k_name, SpecBValue::Bytes(v.name))] + tail1;
    lemma_pairs_cons(
        k_pieces,
        SpecBValue::Bytes(v.pieces),
        Seq::<(Seq<u8>, SpecBValue)>::empty(),
    );
    lemma_pairs_cons(k_piece_length, SpecBValue::Int(v.piece_length), tail2);
    lemma_pairs_cons(k_name, SpecBValue::Bytes(v.name), tail1);
    let with_length = match v.length {
        Some(l) => seq![(k_length, SpecBValue::Int(l))] + tail0,
        None => tail0,
    };
    match v.length {
        Some(l) => {
            lemma_pairs_cons(k_length, SpecBValue::Int(l), tail0);
        },
        None => {
        },
    }
    match v.files {
        Some(fs) => {
            lemma_file_values_bytes(fs);
            lemma_pairs_cons(k_files, SpecBValue::List(spec_file_values(fs)), with_length);
            assert(spec_info_entries(v) =~= seq![
                (k_files, SpecBValue::List(spec_file_values(fs))),
            ] + with_length);
        },
        None => {
            assert(spec_info_entries(v) =~= with_length);
        },
    }
    assert(spec_info_bytes(v) =~= spec_bencode(SpecBValue::Dict(spec_info_entries(v))));
}

/// The info dictionary's keys stand in strictly ascending lexicographic
/// order, whichever of the optional fields are present: the canonical
/// key ordering that interoperable info hashing depends on.
pub proof fn lemma_info_entries_sorted(v: SpecInfo)
    ensures
        spec_keys_sorted(spec_info_entries(v)),
{
    let k_files = seq![102u8, 105u8, 108u8, 101u8, 115u8];
    let k_length = seq![108u8, 101u8, 110u8, 103u8, 116u8, 104u8];
    let k_name = seq![110u8, 97u8, 109u8, 101u8];
    let k_piece_length = seq![
        112u8,
        105u8,
        101u8,
        99u8,
        101u8,
        32u8,
        108u8,
        101u8,
        110u8,
        103u8,
        116u8,
        104u8,
    ];
    let k_pieces = seq![112u8, 105u8, 101u8, 99u8, 101u8, 115u8];
    assert(spec_bytes_lt(k_files, k_length));
    assert(spec_bytes_lt(k_files, k_name));
    assert(spec_bytes_lt(k_files, k_piece_length));
    assert(spec_bytes_lt(k_files, k_pieces));
    assert(spec_bytes_lt(k_length, k_name));
    assert(spec_bytes_lt(k_length, k_piece_length));
    assert(spec_bytes_lt(k_length, k_pieces));
    assert(spec_bytes_lt(k_name, k_piece_length));
    assert(spec_bytes_lt(k_name, k_pieces));
    assert(spec_bytes_lt(k_piece_length, k_pieces)) by {
        reveal_with_fuel(crate::bencode::spec_bytes_lt, 8);
        assert(k_piece_length.drop_first() =~= seq![
            105u8,
            101u8,
            99u8,
            101u8,
            32u8,
            108u8,
            101u8,
            110u8,
            103u8,
            116u8,
            104u8,
        ]);
        assert(k_pieces.drop_first() =~= seq![105u8, 101u8, 99u8, 101u8, 115u8]);
    }
    let e = spec_info_entries(v);
    match (v.files, v.length) {
        (Some(fs), Some(l)) => {
            assert(e.len() == 5);
            assert(e[0].0 == k_files && e[1].0 == k_length && e[2].0 == k_name && e[3].0
                == k_piece_length && e[4].0 == k_pieces);
        },
        (Some(fs), None) => {
            assert(e.len() == 4);
            assert(e[0].0 == k_files && e[1].0 == k_name && e[2].0 == k_piece_length && e[3].0
                == k_pieces);
        },
        (None, Some(l)) => {
            assert(e.len() == 4);
            assert(e[0].0 == k_length && e[1].0 == k_name && e[2].0 == k_piece_length && e[3].0
                == k_pieces);
        },
        (None, None) => {
            assert(e.len() == 3);
            assert(e[0].0 == k_name && e[1].0 == k_piece_length && e[2].0 == k_pieces);
        },
    }
}

/// A file record's keys likewise stand in strictly ascending
/// lexicographic order.
pub proof fn lemma_file_entries_sorted(f: SpecFile)
    ensures
        spec_keys_sorted(spec_file_entries(f)),
{
    let k_length = seq![108u8, 101u8, 110u8, 103u8, 116u8, 104u8];
    let k_md5sum = seq![109u8, 100u8, 53u8, 115u8, 117u8, 109u8];
    let k_path = seq![112u8, 97u8, 116u8, 104u8];
    assert(spec_bytes_lt(k_length, k_md5sum));
    assert(spec_bytes_lt(k_length, k_path));
    assert(spec_bytes_lt(k_md5sum, k_path));
    let e = spec_file_entries(f);
    match f.md5sum {
        Some(m) => {
            assert(e.len() == 3);
            assert(e[0].0 == k_length && e[1].0 == k_md5sum && e[2].0 == k_path);
        },
        None => {
            assert(e.len() == 2);
            assert(e[0].0 == k_length && e[1].0 == k_path);
        },
    }
}

/// A DHT bootstrap node of a torrent file: host and port.
#[derive(Debug, Clone, PartialEq, Eq)]
pub struct Node(pub String, pub i64);

/// The tiered tracker URL list: tier order is announce priority, and the
/// URLs inside a tier are fallback candidates.  Built only from lists
/// whose every URL parses.
#[derive(Debug, Clone)]
pub struct AnnounceList {
    pub list: Vec<Vec<String>>,
}

impl AnnounceList {
    /// Every URL in every tier parses.
    pub open spec fn wf(&self) -> bool {
        forall|i: int, j: int|
            0 <= i < self.list@.len() && 0 <= j < self.list@[i]@.len() ==> url_parse_ok(
                #[trigger] self.list@[i]@[j]@,
            )
    }

    /// Builds a tiered list from string URLs.  One unparseable URL in
    /// any tier rejects the whole list.
    pub fn from_strings(list: Vec<Vec<String>>) -> (r: Result<AnnounceList, TrackerError>)
        ensures
            r is Ok <==> (forall|i: int, j: int|
                0 <= i < list@.len() && 0 <= j < list@[i]@.len() ==> url_parse_ok(
                    #[trigger] list@[i]@[j]@,
                )),
            r matches Ok(a) ==> a.list == list && a.wf(),
            r matches Err(e) ==> e == TrackerError::Format,
    {
        let n = list.len();
        let mut i: usize = 0;
        while i < n
            invariant
                n == list@.len(),
                i <= n,
                forall|x: int, j: int|
                    0 <= x < i && 0 <= j < list@[x]@.len() ==> url_parse_ok(
                        #[trigger] list@[x]@[j]@,
                    ),
            decreases n - i,
        {
            let tier = &list[i];
            let m = tier.len();
            let mut j: usize = 0;
            while j < m
                invariant
                    m == tier@.len(),
                    tier@ == list@[i as int]@,
                    i < n,
                    n == list@.len(),
                    j <= m,
                    forall|x: int, y: int|
                        0 <= x < i && 0 <= y < list@[x]@.len() ==> url_parse_ok(
                            #[trigger] list@[x]@[y]@,
                        ),
                    forall|y: int| 0 <= y < j ==> url_parse_ok(#[trigger] tier@[y]@),
                decreases m - j,
            {
                if !parse_url_ok(tier[j].as_str()) {
                    return Err(TrackerError::Format);
                }
                j = j + 1;
            }
            i = i + 1;
        }
        Ok(AnnounceList { list })
    }
}

/// A parsed torrent descriptor: the info dictionary, the primary
/// announce URL, and the optional auxiliary fields of the torrent file.
#[derive(Debug, Clone)]
pub struct Torrent {
    pub info: Info,
    pub announce: Option<String>,
    pub nodes: Option<Vec<Node>>,
    pub encoding: Option<String>,
    pub httpseeds: Option<Vec<String>>,
    pub announce_list: Option<AnnounceList>,
    pub creation_date: Option<i64>,
    pub comment: Option<String>,
    pub created_by: Option<String>,
}

impl Torrent {
    /// The info dictionary.
    pub fn info(&self) -> (r: &Info)
        ensures
            r == &self.info,
    {
        &self.info
    }

    /// The host and effective port of the primary announce URL, for the
    /// caller to resolve.  Fails with `Resolution` when the torrent has
    /// no announce URL or its URL has no host; a URL without an explicit
    /// or well-known port defaults to port 80.
    pub fn announce_host_port(&self) -> (r: Result<(String, u16), TrackerError>)
        ensures
            r is Ok <==> (self.announce matches Some(a) && url_host_of(a@) is Some),
            r matches Ok((h, p)) ==> {
                &&& self.announce matches Some(a)
                &&& Some(h@) == url_host_of(a@)
                &&& p == (match url_port_of(a@) {
                    Some(q) => q,
                    None => 80u16,
                })
            },
            r matches Err(e) ==> e == TrackerError::Resolution,
    {
        let a = match &self.announce {
            Some(a) => a,
            None => {
                return Err(TrackerError::Resolution);
            },
        };
        let host = match parse_url_host(a.as_str()) {
            Some(h) => h,
            None => {
                return Err(TrackerError::Resolution);
            },
        };
        let port = match parse_url_port(a.as_str()) {
            Some(p) => p,
            None => 80,
        };
        Ok((host, port))
    }
}

} // verus!
