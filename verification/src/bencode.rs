//! Bencode: BitTorrent's encoding for integers, byte strings, lists and
//! dictionaries.
//!
//! The encoder produces canonical bencode (dictionary entries are written
//! in the order stored; the torrent model sorts its keys).  The parser is
//! strict: it rejects non-canonical forms such as integers with leading
//! zeros or `-0` and length prefixes with leading zeros, and integers
//! outside the range of `i64`.  Both directions are proved: every input
//! the parser accepts is the canonical encoding of the value it yields
//! (`lemma_parse_bvalue_sound`), and every canonical encoding parses
//! back to its value (`lemma_bencode_roundtrip`).

use vstd::prelude::*;

use crate::errors::TrackerError;
use crate::text::{lemma_decimal_bytes_digits, lemma_decimal_bytes_leading,
    lemma_digits_render, lemma_digits_val_positive, lemma_scan_digits_general,
    lemma_scan_of_decimal, push_decimal_bytes, push_int_decimal_bytes, scan_digits,
    spec_canonical_digits, spec_decimal_bytes, spec_digits_val, spec_int_decimal_bytes,
    spec_is_digit, spec_scan_digits};
use crate::wire::push_bytes;

verus! {

/// A bencode value as held and produced by executable code.
#[derive(Debug)]
pub enum BValue {
    /// `i<decimal>e`
    Int(i64),
    /// `<length>:<bytes>`
    Bytes(Vec<u8>),
    /// `l<values>e`
    List(Vec<BValue>),
    /// `d<key value pairs>e`, keys are byte strings
    Dict(Vec<(Vec<u8>, BValue)>),
}

/// The mathematical model of a bencode value.
pub enum SpecBValue {
    Int(int),
    Bytes(Seq<u8>),
    List(Seq<SpecBValue>),
    Dict(Seq<(Seq<u8>, SpecBValue)>),
}

/// The model denoted by an executable bencode value.
pub open spec fn deep_view(v: BValue) -> SpecBValue
    decreases v,
    via deep_view_decreases
{
    match v {
        BValue::Int(i) => SpecBValue::Int(i as int),
        BValue::Bytes(b) => SpecBValue::Bytes(b@),
        BValue::List(l) => SpecBValue::List(deep_view_seq(l@)),
        BValue::Dict(d) => SpecBValue::Dict(deep_view_pairs(d@)),
    }
}

/// The models of a sequence of values, in order.
pub open spec fn deep_view_seq(s: Seq<BValue>) -> Seq<SpecBValue>
    decreases s,
{
    if s.len() == 0 {
        Seq::<SpecBValue>::empty()
    } else {
        seq![deep_view(s[0])] + deep_view_seq(s.drop_first())
    }
}

/// The models of a sequence of key-value pairs, in order.
pub open spec fn deep_view_pairs(s: Seq<(Vec<u8>, BValue)>) -> Seq<(Seq<u8>, SpecBValue)>
    decreases s,
{
    if s.len() == 0 {
        Seq::<(Seq<u8>, SpecBValue)>::empty()
    } else {
        seq![(s[0].0@, deep_view(s[0].1))] + deep_view_pairs(s.drop_first())
    }
}

#[via_fn]
proof fn deep_view_decreases(v: BValue) {
    match v {
        BValue::List(l) => {
            assert(decreases_to!(v => l));
            assert(decreases_to!(l => l@));
        },
        BValue::Dict(d) => {
            assert(decreases_to!(v => d));
            assert(decreases_to!(d => d@));
        },
        _ => {
        },
    }
}

pub proof fn lemma_deep_view_seq_len(s: Seq<BValue>)
    ensures
        deep_view_seq(s).len() == s.len(),
    decreases s,
{
    if s.len() > 0 {
        lemma_deep_view_seq_len(s.drop_first());
    }
}

pub proof fn lemma_deep_view_seq_index(s: Seq<BValue>, i: int)
    requires
        0 <= i < s.len(),
    ensures
        deep_view_seq(s).len() == s.len(),
        deep_view_seq(s)[i] == deep_view(s[i]),
    decreases s,
{
    lemma_deep_view_seq_len(s);
    if i > 0 {
        lemma_deep_view_seq_index(s.drop_first(), i - 1);
    }
}

pub proof fn lemma_deep_view_pairs_len(s: Seq<(Vec<u8>, BValue)>)
    ensures
        deep_view_pairs(s).len() == s.len(),
    decreases s,
{
    if s.len() > 0 {
        lemma_deep_view_pairs_len(s.drop_first());
    }
}

pub proof fn lemma_deep_view_pairs_index(s: Seq<(Vec<u8>, BValue)>, i: int)
    requires
        0 <= i < s.len(),
    ensures
        deep_view_pairs(s).len() == s.len(),
        deep_view_pairs(s)[i] == (s[i].0@, deep_view(s[i].1)),
    decreases s,
{
    lemma_deep_view_pairs_len(s);
    if i > 0 {
        lemma_deep_view_pairs_index(s.drop_first(), i - 1);
    }
}

/// The canonical bencode encoding of a value.
pub open spec fn spec_bencode(v: SpecBValue) -> Seq<u8>
    decreases v,
{
    match v {
        SpecBValue::Int(i) => seq![105u8] + spec_int_decimal_bytes(i) + seq![101u8],
        SpecBValue::Bytes(b) => spec_decimal_bytes(b.len()) + seq![58u8] + b,
        SpecBValue::List(l) => seq![108u8] + spec_bencode_seq(l) + seq![101u8],
        SpecBValue::Dict(d) => seq![100u8] + spec_bencode_pairs(d) + seq![101u8],
    }
}

/// The concatenated encodings of a sequence of values.
pub open spec fn spec_bencode_seq(l: Seq<SpecBValue>) -> Seq<u8>
    decreases l,
{
    if l.len() == 0 {
        Seq::<u8>::empty()
    } else {
        spec_bencode(l[0]) + spec_bencode_seq(l.drop_first())
    }
}

/// The concatenated encodings of a sequence of dictionary entries: each
/// key as a byte string, then its value.
pub open spec fn spec_bencode_pairs(d: Seq<(Seq<u8>, SpecBValue)>) -> Seq<u8>
    decreases d,
{
    if d.len() == 0 {
        Seq::<u8>::empty()
    } else {
        spec_decimal_bytes(d[0].0.len()) + seq![58u8] + d[0].0 + spec_bencode(d[0].1)
            + spec_bencode_pairs(d.drop_first())
    }
}

proof fn lemma_bencode_seq_snoc(l: Seq<SpecBValue>, i: int)
    requires
        0 <= i < l.len(),
    ensures
        spec_bencode_seq(l.take(i + 1)) == spec_bencode_seq(l.take(i)) + spec_bencode(l[i]),
    decreases i,
{
    if i == 0 {
        assert(l.take(1) =~= seq![l[0]]);
        assert(l.take(1).drop_first() =~= Seq::<SpecBValue>::empty());
        assert(l.take(0) =~= Seq::<SpecBValue>::empty());
        assert(spec_bencode_seq(l.take(i + 1)) =~= spec_bencode_seq(l.take(i)) + spec_bencode(
            l[i],
        ));
    } else {
        lemma_bencode_seq_snoc(l.drop_first(), i - 1);
        assert(l.take(i + 1).drop_first() =~= l.drop_first().take(i));
        assert(l.take(i).drop_first() =~= l.drop_first().take(i - 1));
        assert(spec_bencode_seq(l.take(i + 1)) =~= spec_bencode_seq(l.take(i)) + spec_bencode(
            l[i],
        ));
    }
}

proof fn lemma_bencode_pairs_snoc(d: Seq<(Seq<u8>, SpecBValue)>, i: int)
    requires
        0 <= i < d.len(),
    ensures
        spec_bencode_pairs(d.take(i + 1)) == spec_bencode_pairs(d.take(i)) + spec_decimal_bytes(
            d[i].0.len(),
        ) + seq![58u8] + d[i].0 + spec_bencode(d[i].1),
    decreases i,
{
    if i == 0 {
        assert(d.take(1) =~= seq![d[0]]);
        assert(d.take(1).drop_first() =~= Seq::<(Seq<u8>, SpecBValue)>::empty());
        assert(d.take(0) =~= Seq::<(Seq<u8>, SpecBValue)>::empty());
        assert(spec_bencode_pairs(d.take(i + 1)) =~= spec_bencode_pairs(d.take(i))
            + spec_decimal_bytes(d[i].0.len()) + seq![58u8] + d[i].0 + spec_bencode(d[i].1));
    } else {
        lemma_bencode_pairs_snoc(d.drop_first(), i - 1);
        assert(d.take(i + 1).drop_first() =~= d.drop_first().take(i));
        assert(d.take(i).drop_first() =~= d.drop_first().take(i - 1));
        assert(spec_bencode_pairs(d.take(i + 1)) =~= spec_bencode_pairs(d.take(i))
            + spec_decimal_bytes(d[i].0.len()) + seq![58u8] + d[i].0 + spec_bencode(d[i].1));
    }
}

impl BValue {
    /// Appends the canonical encoding of this value to `out`.
    #[verifier::loop_isolation(false)]
    pub fn encode_into(&self, out: &mut Vec<u8>)
        ensures
            final(out)@ == old(out)@ + spec_bencode(deep_view(*self)),
        decreases *self,
    {
        match self {
            BValue::Int(i) => {
                out.push(105);
                push_int_decimal_bytes(out, *i);
                out.push(101);
                assert(out@ =~= old(out)@ + spec_bencode(deep_view(*self)));
            },
            BValue::Bytes(b) => {
                push_decimal_bytes(out, b.len() as u64);
                out.push(58);
                push_bytes(out, b.as_slice());
                assert(out@ =~= old(out)@ + spec_bencode(deep_view(*self)));
            },
            BValue::List(l) => {
                out.push(108);
                let ghost views = deep_view_seq(l@);
                proof {
                    lemma_deep_view_seq_len(l@);
                }
                let n = l.len();
                let mut k: usize = 0;
                proof {
                    assert(views.take(0) =~= Seq::<SpecBValue>::empty());
                }
                while k < n
                    invariant
                        n == l@.len(),
                        views == deep_view_seq(l@),
                        views.len() == n,
                        k <= n,
                        out@ == old(out)@ + seq![108u8] + spec_bencode_seq(
                            views.take(k as int),
                        ),
                    decreases n - k,
                {
                    proof {
                        let sv = *self;
                        let lv = sv->List_0;
                        let ls = lv@;
                        assert(decreases_to!(sv => lv));
                        assert(decreases_to!(lv => ls));
                        assert(decreases_to!(ls => ls[k as int]));
                    }
                    let item = &l[k];
                    item.encode_into(out);
                    proof {
                        lemma_deep_view_seq_index(l@, k as int);
                        lemma_bencode_seq_snoc(views, k as int);
                        assert(out@ =~= old(out)@ + seq![108u8] + spec_bencode_seq(
                            views.take(k + 1),
                        ));
                    }
                    k = k + 1;
                }
                out.push(101);
                proof {
                    assert(views.take(n as int) =~= views);
                    assert(out@ =~= old(out)@ + spec_bencode(deep_view(*self)));
                }
            },
            BValue::Dict(d) => {
                out.push(100);
                let ghost views = deep_view_pairs(d@);
                proof {
                    lemma_deep_view_pairs_len(d@);
                }
                let n = d.len();
                let mut k: usize = 0;
                proof {
                    assert(views.take(0) =~= Seq::<(Seq<u8>, SpecBValue)>::empty());
                }
                while k < n
                    invariant
                        n == d@.len(),
                        views == deep_view_pairs(d@),
                        views.len() == n,
                        k <= n,
                        out@ == old(out)@ + seq![100u8] + spec_bencode_pairs(
                            views.take(k as int),
                        ),
                    decreases n - k,
                {
                    let key = &d[k].0;
                    push_decimal_bytes(out, key.len() as u64);
                    out.push(58);
                    push_bytes(out, key.as_slice());
                    proof {
                        let sv = *self;
                        let dv = sv->Dict_0;
                        let ds = dv@;
                        let pair = ds[k as int];
                        assert(decreases_to!(sv => dv));
                        assert(decreases_to!(dv => ds));
                        assert(decreases_to!(ds => pair));
                        assert(decreases_to!(pair => pair.1));
                    }
                    let value = &d[k].1;
                    value.encode_into(out);
                    proof {
                        lemma_deep_view_pairs_index(d@, k as int);
                        lemma_bencode_pairs_snoc(views, k as int);
                        assert(out@ =~= old(out)@ + seq![100u8] + spec_bencode_pairs(
                            views.take(k + 1),
                        ));
                    }
                    k = k + 1;
                }
                out.push(101);
                proof {
                    assert(views.take(n as int) =~= views);
                    assert(out@ =~= old(out)@ + spec_bencode(deep_view(*self)));
                }
            },
        }
    }

    /// The canonical encoding of this value as a fresh buffer.
    pub fn encode(&self) -> (r: Vec<u8>)
        ensures
            r@ == spec_bencode(deep_view(*self)),
    {
        let mut out: Vec<u8> = Vec::new();
        self.encode_into(&mut out);
        out
    }

    /// Parses a whole buffer as one canonical bencode value; trailing
    /// bytes or any deviation from the canonical grammar are a
    /// `MalformedResponse` error.
    pub fn parse(bytes: &[u8]) -> (r: Result<BValue, TrackerError>)
        ensures
            r is Ok <==> spec_parse_bvalue(bytes@) is Some,
            r matches Ok(v) ==> spec_parse_bvalue(bytes@) == Some(deep_view(v)),
            r matches Err(e) ==> e == TrackerError::MalformedResponse,
    {
        match parse_value(bytes, 0) {
            None => Err(TrackerError::MalformedResponse),
            Some((v, j)) => {
                if j == bytes.len() {
                    Ok(v)
                } else {
                    Err(TrackerError::MalformedResponse)
                }
            },
        }
    }
}

/// The byte string denoted at `i`: a canonical length numeral, a colon,
/// and that many bytes.
pub open spec fn spec_parse_string(b: Seq<u8>, i: int) -> Option<(Seq<u8>, int)>
    decreases b.len() - i, 1int,
{
    let (n, j) = spec_scan_digits(b, i, 0);
    if spec_canonical_digits(b, i, j) && j < b.len() && b[j] == 58 && j + 1 + n <= b.len() {
        Some((b.subrange(j + 1, j + 1 + n), j + 1 + n))
    } else {
        None
    }
}

/// The value denoted at `i`: an integer `i…e` (canonical, no `-0`, in the
/// range of `i64`), a byte string, a list `l…e` or a dictionary `d…e`.
pub open spec fn spec_parse_value(b: Seq<u8>, i: int) -> Option<(SpecBValue, int)>
    decreases b.len() - i, 2int,
{
    if i >= b.len() {
        None
    } else if b[i] == 105 {
        let neg = i + 1 < b.len() && b[i + 1] == 45;
        let start = if neg {
            i + 2
        } else {
            i + 1
        };
        let (n, j) = spec_scan_digits(b, start, 0);
        if spec_canonical_digits(b, start, j) && (!neg || b[start] != 48) && j < b.len() && b[j]
            == 101 && (if neg {
            n <= 0x8000_0000_0000_0000
        } else {
            n < 0x8000_0000_0000_0000
        }) {
            Some(
                (
                    SpecBValue::Int(
                        if neg {
                            -(n as int)
                        } else {
                            n as int
                        },
                    ),
                    j + 1,
                ),
            )
        } else {
            None
        }
    } else if spec_is_digit(b[i]) {
        match spec_parse_string(b, i) {
            Some((s, j)) => Some((SpecBValue::Bytes(s), j)),
            None => None,
        }
    } else if b[i] == 108 {
        match spec_parse_items(b, i + 1) {
            Some((l, j)) => Some((SpecBValue::List(l), j)),
            None => None,
        }
    } else if b[i] == 100 {
        match spec_parse_entries(b, i + 1) {
            Some((d, j)) => Some((SpecBValue::Dict(d), j)),
            None => None,
        }
    } else {
        None
    }
}

/// The list items denoted at `i`: values until a terminating `e`.
pub open spec fn spec_parse_items(b: Seq<u8>, i: int) -> Option<(Seq<SpecBValue>, int)>
    decreases b.len() - i, 3int,
{
    if i < b.len() && b[i] == 101 {
        Some((Seq::<SpecBValue>::empty(), i + 1))
    } else {
        match spec_parse_value(b, i) {
            None => None,
            Some((v, j)) => if i < j <= b.len() {
                match spec_parse_items(b, j) {
                    None => None,
                    Some((rest, k)) => Some((seq![v] + rest, k)),
                }
            } else {
                None
            },
        }
    }
}

/// The dictionary entries denoted at `i`: key-value pairs, each key a
/// byte string, until a terminating `e`.
pub open spec fn spec_parse_entries(b: Seq<u8>, i: int) -> Option<
    (Seq<(Seq<u8>, SpecBValue)>, int),
>
    decreases b.len() - i, 3int,
{
    if i < b.len() && b[i] == 101 {
        Some((Seq::<(Seq<u8>, SpecBValue)>::empty(), i + 1))
    } else {
        match spec_parse_string(b, i) {
            None => None,
            Some((key, j)) => if i < j <= b.len() {
                match spec_parse_value(b, j) {
                    None => None,
                    Some((v, k)) => if j < k <= b.len() {
                        match spec_parse_entries(b, k) {
                            None => None,
                            Some((rest, m)) => Some((seq![(key, v)] + rest, m)),
                        }
                    } else {
                        None
                    },
                }
            } else {
                None
            },
        }
    }
}

/// The value denoted by a whole buffer, when it is consumed exactly.
pub open spec fn spec_parse_bvalue(b: Seq<u8>) -> Option<SpecBValue> {
    match spec_parse_value(b, 0) {
        Some((v, j)) => if j == b.len() {
            Some(v)
        } else {
            None
        },
        None => None,
    }
}

/// Parses the byte string denoted at `i`, exactly as the spec-level
/// grammar accepts it.
fn parse_string(b: &[u8], i: usize) -> (r: Option<(Vec<u8>, usize)>)
    requires
        i <= b@.len(),
    ensures
        r is Some <==> spec_parse_string(b@, i as int) is Some,
        r matches Some((s, j)) ==> spec_parse_string(b@, i as int) == Some((s@, j as int)) && i
            < j <= b@.len(),
{
    let (value, end) = scan_digits(b, i);
    if !(end > i && (end - i == 1 || b[i] != 48)) {
        return None;
    }
    if end >= b.len() || b[end] != 58 {
        return None;
    }
    match value {
        None => {
            proof {
                assert(spec_scan_digits(b@, i as int, 0).0 + 1 + end > b@.len());
            }
            None
        },
        Some(nv) => {
            let n = b.len();
            if nv > (n - end - 1) as u64 {
                return None;
            }
            let len = nv as usize;
            let s = vstd::slice::slice_to_vec(
                vstd::slice::slice_subrange(b, end + 1, end + 1 + len),
            );
            Some((s, end + 1 + len))
        },
    }
}

/// Parses the value denoted at `i`, exactly as the spec-level grammar
/// accepts it.
fn parse_value(b: &[u8], i: usize) -> (r: Option<(BValue, usize)>)
    requires
        i <= b@.len(),
    ensures
        r is Some <==> spec_parse_value(b@, i as int) is Some,
        r matches Some((v, j)) ==> spec_parse_value(b@, i as int) == Some(
            (deep_view(v), j as int),
        ) && i < j <= b@.len(),
    decreases b@.len() - i, 2int,
{
    if i >= b.len() {
        return None;
    }
    let c = b[i];
    if c == 105 {
        let neg = i + 1 < b.len() && b[i + 1] == 45;
        let start = if neg {
            i + 2
        } else {
            i + 1
        };
        let (value, end) = scan_digits(b, start);
        if !(end > start && (end - start == 1 || b[start] != 48)) {
            return None;
        }
        if neg && b[start] == 48 {
            return None;
        }
        if end >= b.len() || b[end] != 101 {
            return None;
        }
        match value {
            None => None,
            Some(nv) => {
                if neg {
                    if nv > 0x8000_0000_0000_0000 {
                        return None;
                    }
                    let x: i64 = if nv == 0x8000_0000_0000_0000 {
                        i64::MIN
                    } else {
                        -(nv as i64)
                    };
                    Some((BValue::Int(x), end + 1))
                } else {
                    if nv >= 0x8000_0000_0000_0000 {
                        return None;
                    }
                    Some((BValue::Int(nv as i64), end + 1))
                }
            },
        }
    } else if 48 <= c && c <= 57 {
        match parse_string(b, i) {
            None => None,
            Some((s, j)) => Some((BValue::Bytes(s), j)),
        }
    } else if c == 108 {
        match parse_items(b, i + 1) {
            None => None,
            Some((l, j)) => Some((BValue::List(l), j)),
        }
    } else if c == 100 {
        match parse_entries(b, i + 1) {
            None => None,
            Some((d, j)) => Some((BValue::Dict(d), j)),
        }
    } else {
        None
    }
}

/// Parses list items until the terminating `e`, exactly as the
/// spec-level grammar accepts them.
fn parse_items(b: &[u8], i: usize) -> (r: Option<(Vec<BValue>, usize)>)
    requires
        i <= b@.len(),
    ensures
        r is Some <==> spec_parse_items(b@, i as int) is Some,
        r matches Some((l, j)) ==> spec_parse_items(b@, i as int) == Some(
            (deep_view_seq(l@), j as int),
        ) && i < j <= b@.len(),
    decreases b@.len() - i, 3int,
{
    if i < b.len() && b[i] == 101 {
        let empty: Vec<BValue> = Vec::new();
        proof {
            assert(deep_view_seq(empty@) =~= Seq::<SpecBValue>::empty());
        }
        return Some((empty, i + 1));
    }
    match parse_value(b, i) {
        None => None,
        Some((v, j)) => {
            match parse_items(b, j) {
                None => None,
                Some((rest, k)) => {
                    let ghost before = rest@;
                    let mut l = rest;
                    l.insert(0, v);
                    proof {
                        assert(l@.drop_first() =~= before);
                        assert(deep_view_seq(l@) =~= seq![deep_view(v)] + deep_view_seq(before));
                    }
                    Some((l, k))
                },
            }
        },
    }
}

/// Parses dictionary entries until the terminating `e`, exactly as the
/// spec-level grammar accepts them.
fn parse_entries(b: &[u8], i: usize) -> (r: Option<(Vec<(Vec<u8>, BValue)>, usize)>)
    requires
        i <= b@.len(),
    ensures
        r is Some <==> spec_parse_entries(b@, i as int) is Some,
        r matches Some((d, j)) ==> spec_parse_entries(b@, i as int) == Some(
            (deep_view_pairs(d@), j as int),
        ) && i < j <= b@.len(),
    decreases b@.len() - i, 3int,
{
    if i < b.len() && b[i] == 101 {
        let empty: Vec<(Vec<u8>, BValue)> = Vec::new();
        proof {
            assert(deep_view_pairs(empty@) =~= Seq::<(Seq<u8>, SpecBValue)>::empty());
        }
        return Some((empty, i + 1));
    }
    match parse_string(b, i) {
        None => None,
        Some((key, j)) => {
            match parse_value(b, j) {
                None => None,
                Some((v, k)) => {
                    match parse_entries(b, k) {
                        None => None,
                        Some((rest, m)) => {
                            let ghost before = rest@;
                            let mut d = rest;
                            d.insert(0, (key, v));
                            proof {
                                assert(d@.drop_first() =~= before);
                                assert(deep_view_pairs(d@) =~= seq![(d@[0].0@, deep_view(d@[0].1))]
                                    + deep_view_pairs(before));
                            }
                            Some((d, m))
                        },
                    }
                },
            }
        },
    }
}

/// A canonically scanned digit run is the decimal numeral of its value.
proof fn lemma_scan_canonical_renders(b: Seq<u8>, s: int)
    requires
        0 <= s <= b.len(),
        spec_canonical_digits(b, s, spec_scan_digits(b, s, 0).1),
    ensures
        ({
            let (n, e) = spec_scan_digits(b, s, 0);
            &&& s < e <= b.len()
            &&& b.subrange(s, e) == spec_decimal_bytes(n)
            &&& (b[s] != 48 ==> n >= 1)
        }),
{
    lemma_scan_digits_general(b, s, 0);
    let (n, e) = spec_scan_digits(b, s, 0);
    let run = b.subrange(s, e);
    assert(0 * crate::text::spec_pow10((e - s) as nat) == 0) by (nonlinear_arith);
    assert(n == spec_digits_val(run));
    assert(forall|k: int| 0 <= k < run.len() ==> spec_is_digit(#[trigger] run[k])) by {
        assert(forall|k: int| 0 <= k < run.len() ==> run[k] == b[s + k]);
    }
    assert(run[0] == b[s]);
    lemma_digits_render(run);
    if b[s] != 48 {
        lemma_digits_val_positive(run);
    }
}

/// Every byte string the parser accepts re-encodes to exactly the bytes
/// it consumed.
pub proof fn lemma_parse_string_sound(b: Seq<u8>, i: int)
    requires
        0 <= i <= b.len(),
        spec_parse_string(b, i) is Some,
    ensures
        ({
            let (s, j) = spec_parse_string(b, i)->Some_0;
            &&& i < j <= b.len()
            &&& spec_decimal_bytes(s.len()) + seq![58u8] + s == b.subrange(i, j)
        }),
{
    let (n, e) = spec_scan_digits(b, i, 0);
    lemma_scan_canonical_renders(b, i);
    let (s, j) = spec_parse_string(b, i)->Some_0;
    assert(s.len() == n);
    assert(b.subrange(e, e + 1) =~= seq![58u8]);
    assert(spec_decimal_bytes(s.len()) + seq![58u8] + s =~= b.subrange(i, e) + b.subrange(
        e,
        e + 1,
    ) + b.subrange(e + 1, j));
    assert(b.subrange(i, e) + b.subrange(e, e + 1) + b.subrange(e + 1, j) =~= b.subrange(i, j));
}

/// Every value the parser accepts re-encodes to exactly the bytes it
/// consumed: the strict parser accepts only canonical encodings.
pub proof fn lemma_parse_value_sound(b: Seq<u8>, i: int)
    requires
        0 <= i <= b.len(),
        spec_parse_value(b, i) is Some,
    ensures
        ({
            let (v, j) = spec_parse_value(b, i)->Some_0;
            &&& i < j <= b.len()
            &&& spec_bencode(v) == b.subrange(i, j)
        }),
    decreases b.len() - i, 2int,
{
    let (v, j) = spec_parse_value(b, i)->Some_0;
    if b[i] == 105 {
        let neg = i + 1 < b.len() && b[i + 1] == 45;
        let start: int = if neg {
            i + 2
        } else {
            i + 1
        };
        let (n, e) = spec_scan_digits(b, start, 0);
        lemma_scan_canonical_renders(b, start);
        if neg {
            assert(n >= 1);
            assert(v == SpecBValue::Int(-(n as int)));
            assert(spec_int_decimal_bytes(-(n as int)) == seq![45u8] + spec_decimal_bytes(n));
            assert(b.subrange(i, i + 2) =~= seq![105u8, 45u8]);
            assert(spec_bencode(v) =~= seq![105u8] + (seq![45u8] + spec_decimal_bytes(n))
                + seq![101u8]);
            assert(spec_bencode(v) =~= b.subrange(i, j));
        } else {
            assert(v == SpecBValue::Int(n as int));
            assert(spec_int_decimal_bytes(n as int) == spec_decimal_bytes(n));
            assert(spec_bencode(v) =~= seq![105u8] + spec_decimal_bytes(n) + seq![101u8]);
            assert(spec_bencode(v) =~= b.subrange(i, j));
        }
    } else if spec_is_digit(b[i]) {
        lemma_parse_string_sound(b, i);
        let (s, _) = spec_parse_string(b, i)->Some_0;
        assert(v == SpecBValue::Bytes(s));
        assert(spec_bencode(v) == spec_decimal_bytes(s.len()) + seq![58u8] + s);
    } else if b[i] == 108 {
        lemma_parse_items_sound(b, i + 1);
        let (l, _) = spec_parse_items(b, i + 1)->Some_0;
        assert(v == SpecBValue::List(l));
        assert(b.subrange(i, i + 1) =~= seq![108u8]);
        assert(spec_bencode(v) =~= seq![108u8] + (spec_bencode_seq(l) + seq![101u8]));
        assert(spec_bencode(v) =~= b.subrange(i, i + 1) + b.subrange(i + 1, j));
        assert(b.subrange(i, i + 1) + b.subrange(i + 1, j) =~= b.subrange(i, j));
        assert(spec_bencode(v) =~= b.subrange(i, j));
    } else {
        lemma_parse_entries_sound(b, i + 1);
        let (d, _) = spec_parse_entries(b, i + 1)->Some_0;
        assert(v == SpecBValue::Dict(d));
        assert(b.subrange(i, i + 1) =~= seq![100u8]);
        assert(spec_bencode(v) =~= seq![100u8] + (spec_bencode_pairs(d) + seq![101u8]));
        assert(spec_bencode(v) =~= b.subrange(i, i + 1) + b.subrange(i + 1, j));
        assert(b.subrange(i, i + 1) + b.subrange(i + 1, j) =~= b.subrange(i, j));
        assert(spec_bencode(v) =~= b.subrange(i, j));
    }
}

/// Every item list the parser accepts re-encodes, with its terminating
/// `e`, to exactly the bytes it consumed.
proof fn lemma_parse_items_sound(b: Seq<u8>, i: int)
    requires
        0 <= i <= b.len(),
        spec_parse_items(b, i) is Some,
    ensures
        ({
            let (l, j) = spec_parse_items(b, i)->Some_0;
            &&& i < j <= b.len()
            &&& spec_bencode_seq(l) + seq![101u8] == b.subrange(i, j)
        }),
    decreases b.len() - i, 3int,
{
    let (l, j) = spec_parse_items(b, i)->Some_0;
    if i < b.len() && b[i] == 101 {
        assert(spec_bencode_seq(l) + seq![101u8] =~= b.subrange(i, i + 1));
    } else {
        lemma_parse_value_sound(b, i);
        let (v, jv) = spec_parse_value(b, i)->Some_0;
        lemma_parse_items_sound(b, jv);
        let (rest, _) = spec_parse_items(b, jv)->Some_0;
        assert(l == seq![v] + rest);
        assert(l[0] == v);
        assert(l.drop_first() =~= rest);
        assert(spec_bencode_seq(l) == spec_bencode(v) + spec_bencode_seq(rest));
        assert(spec_bencode_seq(l) + seq![101u8] =~= b.subrange(i, jv) + (spec_bencode_seq(rest)
            + seq![101u8]));
        assert(b.subrange(i, jv) + b.subrange(jv, j) =~= b.subrange(i, j));
        assert(spec_bencode_seq(l) + seq![101u8] =~= b.subrange(i, j));
    }
}

/// Every entry list the parser accepts re-encodes, with its terminating
/// `e`, to exactly the bytes it consumed.
proof fn lemma_parse_entries_sound(b: Seq<u8>, i: int)
    requires
        0 <= i <= b.len(),
        spec_parse_entries(b, i) is Some,
    ensures
        ({
            let (d, j) = spec_parse_entries(b, i)->Some_0;
            &&& i < j <= b.len()
            &&& spec_bencode_pairs(d) + seq![101u8] == b.subrange(i, j)
        }),
    decreases b.len() - i, 3int,
{
    let (d, j) = spec_parse_entries(b, i)->Some_0;
    if i < b.len() && b[i] == 101 {
        assert(spec_bencode_pairs(d) + seq![101u8] =~= b.subrange(i, i + 1));
    } else {
        lemma_parse_string_sound(b, i);
        let (key, jk) = spec_parse_string(b, i)->Some_0;
        lemma_parse_value_sound(b, jk);
        let (v, jv) = spec_parse_value(b, jk)->Some_0;
        lemma_parse_entries_sound(b, jv);
        let (rest, _) = spec_parse_entries(b, jv)->Some_0;
        assert(d == seq![(key, v)] + rest);
        assert(d[0] == (key, v));
        assert(d.drop_first() =~= rest);
        assert(spec_bencode_pairs(d) == spec_decimal_bytes(key.len()) + seq![58u8] + key
            + spec_bencode(v) + spec_bencode_pairs(rest));
        assert(spec_bencode_pairs(d) + seq![101u8] =~= (spec_decimal_bytes(key.len())
            + seq![58u8] + key) + spec_bencode(v) + (spec_bencode_pairs(rest) + seq![101u8]));
        assert(spec_bencode_pairs(d) + seq![101u8] =~= b.subrange(i, jk) + b.subrange(jk, jv)
            + b.subrange(jv, j));
        assert(b.subrange(i, jk) + b.subrange(jk, jv) + b.subrange(jv, j) =~= b.subrange(i, j));
        assert(spec_bencode_pairs(d) + seq![101u8] =~= b.subrange(i, j));
    }
}

/// A whole buffer the parser accepts is exactly the canonical encoding
/// of the value it yields.
pub proof fn lemma_parse_bvalue_sound(b: Seq<u8>)
    requires
        spec_parse_bvalue(b) is Some,
    ensures
        spec_bencode(spec_parse_bvalue(b)->Some_0) == b,
{
    lemma_parse_value_sound(b, 0);
    assert(b.subrange(0, b.len() as int) =~= b);
}

/// Strict lexicographic order on byte strings: the order canonical
/// bencode requires of dictionary keys.
pub open spec fn spec_bytes_lt(a: Seq<u8>, b: Seq<u8>) -> bool
    decreases a.len(),
{
    if b.len() == 0 {
        false
    } else if a.len() == 0 {
        true
    } else if a[0] < b[0] {
        true
    } else if a[0] > b[0] {
        false
    } else {
        spec_bytes_lt(a.drop_first(), b.drop_first())
    }
}

/// Dictionary entries whose keys stand in strictly ascending
/// lexicographic order.
pub open spec fn spec_keys_sorted(d: Seq<(Seq<u8>, SpecBValue)>) -> bool {
    forall|i: int, j: int| 0 <= i < j < d.len() ==> spec_bytes_lt(d[i].0, d[j].0)
}

/// Splitting a byte region known to hold a concatenation.
proof fn lemma_region_prefix(b: Seq<u8>, i: int, u: Seq<u8>, w: Seq<u8>)
    requires
        0 <= i,
        i + u.len() + w.len() <= b.len(),
        b.subrange(i, i + u.len() + w.len() as int) == u + w,
    ensures
        b.subrange(i, i + u.len() as int) == u,
        b.subrange(i + u.len() as int, i + u.len() + w.len() as int) == w,
{
    let whole = b.subrange(i, i + u.len() + w.len() as int);
    assert forall|k: int| 0 <= k < u.len() implies b.subrange(i, i + u.len() as int)[k]
        == u[k] by {
        assert(whole[k] == (u + w)[k]);
    }
    assert(b.subrange(i, i + u.len() as int) =~= u);
    assert forall|k: int|
        0 <= k < w.len() implies b.subrange(
        i + u.len() as int,
        i + u.len() + w.len() as int,
    )[k] == w[k] by {
        assert(whole[u.len() + k] == (u + w)[u.len() + k]);
    }
    assert(b.subrange(i + u.len() as int, i + u.len() + w.len() as int) =~= w);
}

/// Whether every integer in the value fits in `i64`, as the executable
/// value type requires.  Values read back from executable values always
/// fit.
pub open spec fn spec_bvalue_fits(v: SpecBValue) -> bool
    decreases v,
{
    match v {
        SpecBValue::Int(i) => -0x8000_0000_0000_0000 <= i < 0x8000_0000_0000_0000,
        SpecBValue::Bytes(_) => true,
        SpecBValue::List(l) => spec_bvalue_fits_seq(l),
        SpecBValue::Dict(d) => spec_bvalue_fits_pairs(d),
    }
}

/// `spec_bvalue_fits` over a sequence of values.
pub open spec fn spec_bvalue_fits_seq(l: Seq<SpecBValue>) -> bool
    decreases l,
{
    if l.len() == 0 {
        true
    } else {
        spec_bvalue_fits(l[0]) && spec_bvalue_fits_seq(l.drop_first())
    }
}

/// `spec_bvalue_fits` over a sequence of dictionary entries.
pub open spec fn spec_bvalue_fits_pairs(d: Seq<(Seq<u8>, SpecBValue)>) -> bool
    decreases d,
{
    if d.len() == 0 {
        true
    } else {
        spec_bvalue_fits(d[0].1) && spec_bvalue_fits_pairs(d.drop_first())
    }
}

/// Every encoding is nonempty and opens with the byte that the parser
/// dispatches on; in particular it never opens with the terminator `e`.
proof fn lemma_bencode_first_byte(v: SpecBValue)
    ensures
        spec_bencode(v).len() >= 1,
        match v {
            SpecBValue::Int(_) => spec_bencode(v)[0] == 105,
            SpecBValue::Bytes(_) => spec_is_digit(spec_bencode(v)[0]),
            SpecBValue::List(_) => spec_bencode(v)[0] == 108,
            SpecBValue::Dict(_) => spec_bencode(v)[0] == 100,
        },
        spec_bencode(v)[0] != 101,
{
    match v {
        SpecBValue::Bytes(b) => {
            lemma_decimal_bytes_digits(b.len());
            assert(spec_bencode(v)[0] == spec_decimal_bytes(b.len())[0]);
        },
        _ => {
        },
    }
}

/// A numeral of more than one digit names a number of at least ten, so
/// the canonical-form check passes on every rendered numeral.
proof fn lemma_rendered_canonical(b: Seq<u8>, start: int, n: nat)
    requires
        0 <= start,
        start + spec_decimal_bytes(n).len() <= b.len(),
        b.subrange(start, start + spec_decimal_bytes(n).len() as int) == spec_decimal_bytes(n),
    ensures
        spec_canonical_digits(b, start, start + spec_decimal_bytes(n).len() as int),
{
    let d = spec_decimal_bytes(n);
    if d.len() > 1 {
        assert(n >= 10) by {
            if n < 10 {
                assert(d.len() == 1);
            }
        }
        lemma_decimal_bytes_leading(n);
        assert(b[start] == b.subrange(start, start + d.len() as int)[0]);
    }
}

/// Parsing at the start of an embedded byte-string encoding consumes
/// exactly that encoding and yields the byte string.
proof fn lemma_bencode_string_parses(b: Seq<u8>, i: int, s: Seq<u8>)
    requires
        0 <= i,
        i + spec_decimal_bytes(s.len()).len() + 1 + s.len() <= b.len(),
        b.subrange(i, i + spec_decimal_bytes(s.len()).len() + 1 + s.len() as int)
            == spec_decimal_bytes(s.len()) + seq![58u8] + s,
    ensures
        spec_parse_string(b, i) == Some(
            (s, i + spec_decimal_bytes(s.len()).len() + 1 + s.len() as int),
        ),
{
    let d = spec_decimal_bytes(s.len());
    let c = i + d.len() as int;
    let stop = c + 1 + s.len() as int;
    lemma_region_prefix(b, i, d + seq![58u8], s);
    lemma_region_prefix(b, i, d, seq![58u8]);
    assert(b[c] == b.subrange(c, c + 1)[0]);
    assert(b[c] == 58);
    lemma_scan_of_decimal(b, i, s.len());
    let (n, e) = spec_scan_digits(b, i, 0);
    assert(n == s.len() && e == c);
    lemma_rendered_canonical(b, i, s.len());
    assert(b.subrange(c + 1, stop) == s);
}

/// Parsing at the start of an embedded value encoding consumes exactly
/// that encoding and yields the value back.
proof fn lemma_bencode_value_parses(b: Seq<u8>, i: int, v: SpecBValue)
    requires
        0 <= i,
        i + spec_bencode(v).len() <= b.len(),
        b.subrange(i, i + spec_bencode(v).len() as int) == spec_bencode(v),
        spec_bvalue_fits(v),
    ensures
        spec_parse_value(b, i) == Some((v, i + spec_bencode(v).len() as int)),
    decreases v,
{
    let enc = spec_bencode(v);
    let stop = i + enc.len() as int;
    lemma_bencode_first_byte(v);
    assert(b[i] == b.subrange(i, stop)[0]);
    assert(b[i] == enc[0]);
    match v {
        SpecBValue::Int(val) => {
            let mag: nat = if val < 0 {
                (-val) as nat
            } else {
                val as nat
            };
            let d = spec_decimal_bytes(mag);
            let neg = val < 0;
            let start: int = if neg {
                i + 2
            } else {
                i + 1
            };
            let e = stop - 1;
            let intdec = spec_int_decimal_bytes(val);
            assert(enc == seq![105u8] + intdec + seq![101u8]);
            lemma_region_prefix(b, i, seq![105u8] + intdec, seq![101u8]);
            assert(b[e] == b.subrange(e, stop)[0]);
            assert(b[e] == 101);
            lemma_region_prefix(b, i, seq![105u8], intdec);
            if neg {
                assert(intdec == seq![45u8] + d);
                lemma_region_prefix(b, i + 1, seq![45u8], d);
                assert(b[i + 1] == b.subrange(i + 1, i + 2)[0]);
                assert(b[i + 1] == 45);
                lemma_decimal_bytes_leading(mag);
            } else {
                assert(intdec == d);
                lemma_decimal_bytes_digits(mag);
                assert(b[i + 1] == b.subrange(i + 1, e)[0]);
                assert(b[i + 1] == d[0]);
                assert(spec_is_digit(b[i + 1]));
                assert(b[i + 1] != 45);
            }
            assert(b.subrange(start, e) == d);
            lemma_scan_of_decimal(b, start, mag);
            let (n, e2) = spec_scan_digits(b, start, 0);
            assert(n == mag && e2 == e);
            lemma_rendered_canonical(b, start, mag);
            if neg {
                assert(b[start] == b.subrange(start, e)[0]);
                assert(b[start] == d[0]);
                lemma_decimal_bytes_leading(mag);
                assert(b[start] != 48);
                assert(-(n as int) == val);
            }
        },
        SpecBValue::Bytes(s) => {
            assert(b[i] != 105 && b[i] != 108 && b[i] != 100);
            assert(enc == spec_decimal_bytes(s.len()) + seq![58u8] + s);
            lemma_bencode_string_parses(b, i, s);
        },
        SpecBValue::List(l) => {
            let inner = spec_bencode_seq(l);
            assert(enc == seq![108u8] + inner + seq![101u8]);
            lemma_region_prefix(b, i, seq![108u8] + inner, seq![101u8]);
            lemma_region_prefix(b, i, seq![108u8], inner);
            assert(b[i + 1 + inner.len() as int] == b.subrange(
                i + 1 + inner.len() as int,
                stop,
            )[0]);
            assert(b[i + 1 + inner.len() as int] == 101);
            let lv = v->List_0;
            assert(decreases_to!(v => lv));
            lemma_bencode_items_parse(b, i + 1, l);
        },
        SpecBValue::Dict(d) => {
            let inner = spec_bencode_pairs(d);
            assert(enc == seq![100u8] + inner + seq![101u8]);
            lemma_region_prefix(b, i, seq![100u8] + inner, seq![101u8]);
            lemma_region_prefix(b, i, seq![100u8], inner);
            assert(b[i + 1 + inner.len() as int] == b.subrange(
                i + 1 + inner.len() as int,
                stop,
            )[0]);
            assert(b[i + 1 + inner.len() as int] == 101);
            let dv = v->Dict_0;
            assert(decreases_to!(v => dv));
            lemma_bencode_entries_parse(b, i + 1, d);
        },
    }
}

/// Parsing at the start of an encoded item list that is closed by `e`
/// consumes the items and the terminator and yields the list back.
proof fn lemma_bencode_items_parse(b: Seq<u8>, i: int, l: Seq<SpecBValue>)
    requires
        0 <= i,
        i + spec_bencode_seq(l).len() < b.len(),
        b.subrange(i, i + spec_bencode_seq(l).len() as int) == spec_bencode_seq(l),
        b[i + spec_bencode_seq(l).len() as int] == 101,
        spec_bvalue_fits_seq(l),
    ensures
        spec_parse_items(b, i) == Some((l, i + spec_bencode_seq(l).len() + 1 as int)),
    decreases l,
{
    if l.len() == 0 {
        assert(spec_bencode_seq(l).len() == 0);
        assert(b[i] == 101);
        assert(spec_parse_items(b, i) == Some((Seq::<SpecBValue>::empty(), i + 1)));
        assert(l =~= Seq::<SpecBValue>::empty());
    } else {
        let first = spec_bencode(l[0]);
        let rest = spec_bencode_seq(l.drop_first());
        assert(spec_bencode_seq(l) == first + rest);
        lemma_region_prefix(b, i, first, rest);
        lemma_bencode_first_byte(l[0]);
        let j = i + first.len() as int;
        assert(b[i] == b.subrange(i, j)[0]);
        assert(b[i] != 101);
        lemma_bencode_value_parses(b, i, l[0]);
        lemma_bencode_items_parse(b, j, l.drop_first());
        assert(seq![l[0]] + l.drop_first() =~= l);
    }
}

/// Parsing at the start of an encoded entry list that is closed by `e`
/// consumes the entries and the terminator and yields the list back.
proof fn lemma_bencode_entries_parse(b: Seq<u8>, i: int, d: Seq<(Seq<u8>, SpecBValue)>)
    requires
        0 <= i,
        i + spec_bencode_pairs(d).len() < b.len(),
        b.subrange(i, i + spec_bencode_pairs(d).len() as int) == spec_bencode_pairs(d),
        b[i + spec_bencode_pairs(d).len() as int] == 101,
        spec_bvalue_fits_pairs(d),
    ensures
        spec_parse_entries(b, i) == Some((d, i + spec_bencode_pairs(d).len() + 1 as int)),
    decreases d,
{
    if d.len() == 0 {
        assert(spec_bencode_pairs(d).len() == 0);
        assert(b[i] == 101);
        assert(spec_parse_entries(b, i) == Some((Seq::<(Seq<u8>, SpecBValue)>::empty(), i + 1)));
        assert(d =~= Seq::<(Seq<u8>, SpecBValue)>::empty());
    } else {
        let key = d[0].0;
        let kd = spec_decimal_bytes(key.len());
        let key_enc = kd + seq![58u8] + key;
        let val_enc = spec_bencode(d[0].1);
        let rest = spec_bencode_pairs(d.drop_first());
        assert(spec_bencode_pairs(d) == key_enc + val_enc + rest);
        lemma_region_prefix(b, i, key_enc + val_enc, rest);
        lemma_region_prefix(b, i, key_enc, val_enc);
        lemma_decimal_bytes_digits(key.len());
        assert(b[i] == b.subrange(i, i + key_enc.len() as int)[0]);
        assert(b[i] == key_enc[0]);
        assert(b[i] == kd[0]);
        assert(spec_is_digit(b[i]));
        assert(b[i] != 101);
        lemma_bencode_string_parses(b, i, key);
        let jk = i + key_enc.len() as int;
        let pair = d[0];
        assert(decreases_to!(d => pair));
        assert(decreases_to!(pair => pair.1));
        lemma_bencode_value_parses(b, jk, d[0].1);
        let jv = jk + val_enc.len() as int;
        lemma_bencode_entries_parse(b, jv, d.drop_first());
        assert(seq![(d[0].0, d[0].1)] + d.drop_first() =~= d);
    }
}

/// Round trip: the canonical encoding of any value whose integers fit in
/// `i64` parses back to exactly that value.
pub proof fn lemma_bencode_roundtrip(v: SpecBValue)
    requires
        spec_bvalue_fits(v),
    ensures
        spec_parse_bvalue(spec_bencode(v)) == Some(v),
{
    let b = spec_bencode(v);
    assert(b.subrange(0, b.len() as int) =~= b);
    lemma_bencode_value_parses(b, 0, v);
}

/// The model of every executable value has its integers in `i64`.
pub proof fn lemma_deep_view_fits(w: BValue)
    ensures
        spec_bvalue_fits(deep_view(w)),
    decreases w,
{
    match w {
        BValue::List(l) => {
            let lv = w->List_0;
            assert(decreases_to!(w => lv));
            assert(decreases_to!(lv => lv@));
            lemma_deep_view_fits_seq(l@);
        },
        BValue::Dict(d) => {
            let dv = w->Dict_0;
            assert(decreases_to!(w => dv));
            assert(decreases_to!(dv => dv@));
            lemma_deep_view_fits_pairs(d@);
        },
        _ => {
        },
    }
}

proof fn lemma_deep_view_fits_seq(s: Seq<BValue>)
    ensures
        spec_bvalue_fits_seq(deep_view_seq(s)),
    decreases s,
{
    if s.len() > 0 {
        lemma_deep_view_fits(s[0]);
        lemma_deep_view_fits_seq(s.drop_first());
        assert(deep_view_seq(s)[0] == deep_view(s[0]));
        assert(deep_view_seq(s).drop_first() =~= deep_view_seq(s.drop_first()));
    }
}

proof fn lemma_deep_view_fits_pairs(s: Seq<(Vec<u8>, BValue)>)
    ensures
        spec_bvalue_fits_pairs(deep_view_pairs(s)),
    decreases s,
{
    if s.len() > 0 {
        let pair = s[0];
        assert(decreases_to!(s => pair));
        assert(decreases_to!(pair => pair.1));
        lemma_deep_view_fits(s[0].1);
        lemma_deep_view_fits_pairs(s.drop_first());
        assert(deep_view_pairs(s)[0] == (s[0].0@, deep_view(s[0].1)));
        assert(deep_view_pairs(s).drop_first() =~= deep_view_pairs(s.drop_first()));
    }
}

/// Round trip at the executable level: encoding any value and parsing
/// the result yields the same model back.
pub proof fn lemma_encode_parse_roundtrip(w: BValue)
    ensures
        spec_parse_bvalue(spec_bencode(deep_view(w))) == Some(deep_view(w)),
{
    lemma_deep_view_fits(w);
    lemma_bencode_roundtrip(deep_view(w));
}

} // verus!
