//! IP addresses as plain values: four octets or eight 16-bit groups,
//! with verified text parsers for the dotted-quad IPv4 form and the
//! colon-separated IPv6 form (including one `::` zero-run), and text
//! renderers for announce queries.

use vstd::prelude::*;

use crate::text::{push_char, push_decimal_bytes, push_decimal_chars, scan_digits,
    spec_canonical_digits, spec_decimal_bytes, spec_decimal_chars, spec_hex_char_lower,
    spec_scan_digits};

verus! {

/// An IP address, version 4 or 6, as plain numeric fields.
#[derive(Debug, Clone, Copy, PartialEq, Eq, Structural)]
pub enum PeerIp {
    /// Four octets, most significant first.
    V4 { a: u8, b: u8, c: u8, d: u8 },
    /// Eight 16-bit groups, most significant first.
    V6 { g0: u16, g1: u16, g2: u16, g3: u16, g4: u16, g5: u16, g6: u16, g7: u16 },
}

/// The IPv6 address with the given eight groups.
pub open spec fn spec_v6_from_groups(g: Seq<u16>) -> PeerIp
    recommends
        g.len() == 8,
{
    PeerIp::V6 {
        g0: g[0],
        g1: g[1],
        g2: g[2],
        g3: g[3],
        g4: g[4],
        g5: g[5],
        g6: g[6],
        g7: g[7],
    }
}

/// An ASCII hexadecimal digit.
pub open spec fn spec_is_hex(b: u8) -> bool {
    (48 <= b <= 57) || (97 <= b <= 102) || (65 <= b <= 70)
}

/// The value of an ASCII hexadecimal digit.
pub open spec fn spec_hex_val(b: u8) -> nat
    recommends
        spec_is_hex(b),
{
    if 48 <= b <= 57 {
        (b - 48) as nat
    } else if 97 <= b <= 102 {
        (b - 87) as nat
    } else {
        (b - 55) as nat
    }
}

/// Scans a (possibly empty) run of hexadecimal digits starting at `i`,
/// accumulating onto `acc`.
pub open spec fn spec_scan_hex(b: Seq<u8>, i: int, acc: nat) -> (nat, int)
    decreases b.len() - i,
{
    if i < b.len() && spec_is_hex(b[i]) {
        spec_scan_hex(b, i + 1, acc * 16 + spec_hex_val(b[i]))
    } else {
        (acc, i)
    }
}

/// Scans a hexadecimal digit run, reporting the value when it fits in
/// `u64` and the position after the run either way.
fn scan_hex(b: &[u8], i: usize) -> (r: (Option<u64>, usize))
    requires
        i <= b@.len(),
    ensures
        i <= r.1 <= b@.len(),
        r.1 == spec_scan_hex(b@, i as int, 0).1,
        r.0 matches Some(v) ==> v as nat == spec_scan_hex(b@, i as int, 0).0,
        r.0 is None ==> spec_scan_hex(b@, i as int, 0).0 > u64::MAX,
{
    let n = b.len();
    let mut p = i;
    let mut acc: u64 = 0;
    let mut over = false;
    let ghost mut acc_spec: nat = 0nat;
    while p < n && ((48 <= b[p] && b[p] <= 57) || (97 <= b[p] && b[p] <= 102) || (65 <= b[p]
        && b[p] <= 70))
        invariant
            i <= p <= n,
            n == b@.len(),
            spec_scan_hex(b@, i as int, 0) == spec_scan_hex(b@, p as int, acc_spec),
            !over ==> acc == acc_spec,
            over ==> acc_spec > u64::MAX,
        decreases n - p,
    {
        let c = b[p];
        let d: u8 = if 48 <= c && c <= 57 {
            c - 48
        } else if 97 <= c && c <= 102 {
            c - 87
        } else {
            c - 55
        };
        proof {
            acc_spec = acc_spec * 16 + spec_hex_val(b@[p as int]);
        }
        if !over {
            let wide: u128 = (acc as u128) * 16 + (d as u128);
            if wide > 0xffff_ffff_ffff_ffff {
                over = true;
            } else {
                acc = wide as u64;
            }
        } else {
            proof {
                assert(acc_spec >= (acc_spec / 16) * 16) by (nonlinear_arith);
            }
        }
        p = p + 1;
    }
    if over {
        (None, p)
    } else {
        (Some(acc), p)
    }
}

/// The group list denoted by text: hexadecimal groups of one to four
/// digits separated by single colons.
pub open spec fn spec_parse_groups(b: Seq<u8>) -> Option<Seq<u16>>
    decreases b.len(),
{
    let (v, j) = spec_scan_hex(b, 0, 0);
    if 1 <= j <= 4 && v < 65536 {
        if j == b.len() {
            Some(seq![v as u16])
        } else if j < b.len() && b[j] == 58 {
            match spec_parse_groups(b.skip(j + 1)) {
                Some(rest) => Some(seq![v as u16] + rest),
                None => None,
            }
        } else {
            None
        }
    } else {
        None
    }
}

/// Parses a colon-separated hexadecimal group list, exactly as the
/// spec-level grammar accepts it.
fn parse_groups(b: &[u8]) -> (r: Option<Vec<u16>>)
    ensures
        r is Some <==> spec_parse_groups(b@) is Some,
        r matches Some(g) ==> spec_parse_groups(b@) == Some(g@),
    decreases b@.len(),
{
    let (value, j) = scan_hex(b, 0);
    if !(1 <= j && j <= 4) {
        return None;
    }
    let v = match value {
        None => {
            proof {
                assert(spec_scan_hex(b@, 0, 0).0 > u64::MAX);
            }
            return None;
        },
        Some(v) => v,
    };
    if v >= 65536 {
        return None;
    }
    if j == b.len() {
        let mut g: Vec<u16> = Vec::new();
        g.push(v as u16);
        proof {
            assert(g@ =~= seq![(v as u16)]);
        }
        return Some(g);
    }
    if b[j] != 58 {
        return None;
    }
    let tail = vstd::slice::slice_subrange(b, j + 1, b.len());
    proof {
        assert(tail@ =~= b@.skip(j + 1));
    }
    match parse_groups(tail) {
        None => None,
        Some(rest) => {
            let ghost before = rest@;
            let mut g = rest;
            g.insert(0, v as u16);
            proof {
                assert(g@ =~= seq![(v as u16)] + before);
            }
            Some(g)
        },
    }
}

/// The position of the first `::` at or after `i`, if any.
pub open spec fn spec_find_dc(b: Seq<u8>, i: int) -> Option<int>
    decreases b.len() - i,
{
    if i + 2 > b.len() {
        None
    } else if b[i] == 58 && b[i + 1] == 58 {
        Some(i)
    } else {
        spec_find_dc(b, i + 1)
    }
}

/// Finds the first `::`, exactly as the spec-level search does.
fn find_dc(b: &[u8]) -> (r: Option<usize>)
    ensures
        r is Some <==> spec_find_dc(b@, 0) is Some,
        r matches Some(p) ==> spec_find_dc(b@, 0) == Some(p as int) && p + 2 <= b@.len(),
{
    let n = b.len();
    let mut i: usize = 0;
    while i < n && i + 1 < n
        invariant
            n == b@.len(),
            i <= n,
            spec_find_dc(b@, 0) == spec_find_dc(b@, i as int),
        decreases n - i,
    {
        if b[i] == 58 && b[i + 1] == 58 {
            return Some(i);
        }
        i = i + 1;
    }
    None
}

/// The IPv6 address denoted by text: eight groups, or fewer with one
/// `::` standing for the missing zero groups.
pub open spec fn spec_parse_ipv6(b: Seq<u8>) -> Option<PeerIp> {
    match spec_find_dc(b, 0) {
        None => match spec_parse_groups(b) {
            Some(g) => if g.len() == 8 {
                Some(spec_v6_from_groups(g))
            } else {
                None
            },
            None => None,
        },
        Some(p) => {
            let left = b.take(p);
            let right = b.skip(p + 2);
            let lg = if left.len() == 0 {
                Some(Seq::<u16>::empty())
            } else {
                spec_parse_groups(left)
            };
            let rg = if right.len() == 0 {
                Some(Seq::<u16>::empty())
            } else {
                spec_parse_groups(right)
            };
            match (lg, rg) {
                (Some(lgs), Some(rgs)) => if lgs.len() + rgs.len() <= 7 {
                    Some(
                        spec_v6_from_groups(
                            lgs + Seq::<u16>::new((8 - lgs.len() - rgs.len()) as nat, |k: int| 0u16)
                                + rgs,
                        ),
                    )
                } else {
                    None
                },
                _ => None,
            }
        },
    }
}

/// The IPv4 address denoted by text: four decimal octets without leading
/// zeros, separated by dots.
pub open spec fn spec_parse_ipv4(b: Seq<u8>) -> Option<PeerIp> {
    let (a, i1) = spec_scan_digits(b, 0, 0);
    if spec_canonical_digits(b, 0, i1) && a <= 255 && i1 < b.len() && b[i1] == 46 {
        let (c, i2) = spec_scan_digits(b, i1 + 1, 0);
        if spec_canonical_digits(b, i1 + 1, i2) && c <= 255 && i2 < b.len() && b[i2] == 46 {
            let (d, i3) = spec_scan_digits(b, i2 + 1, 0);
            if spec_canonical_digits(b, i2 + 1, i3) && d <= 255 && i3 < b.len() && b[i3] == 46 {
                let (e, i4) = spec_scan_digits(b, i3 + 1, 0);
                if spec_canonical_digits(b, i3 + 1, i4) && e <= 255 && i4 == b.len() {
                    Some(PeerIp::V4 { a: a as u8, b: c as u8, c: d as u8, d: e as u8 })
                } else {
                    None
                }
            } else {
                None
            }
        } else {
            None
        }
    } else {
        None
    }
}

/// The address denoted by text: the IPv4 form if it fits, else the IPv6
/// form.
pub open spec fn spec_parse_ip(b: Seq<u8>) -> Option<PeerIp> {
    if spec_parse_ipv4(b) is Some {
        spec_parse_ipv4(b)
    } else {
        spec_parse_ipv6(b)
    }
}

/// Parses one decimal octet at `i`: canonical numeral, at most 255.
fn parse_octet(b: &[u8], i: usize) -> (r: Option<(u8, usize)>)
    requires
        i <= b@.len(),
    ensures
        ({
            let (v, j) = spec_scan_digits(b@, i as int, 0);
            match r {
                Some((o, end)) => spec_canonical_digits(b@, i as int, j) && v <= 255 && o as nat
                    == v && end == j && i < end <= b@.len(),
                None => !(spec_canonical_digits(b@, i as int, j) && v <= 255),
            }
        }),
{
    let (value, end) = scan_digits(b, i);
    if !(end > i && (end - i == 1 || b[i] != 48)) {
        return None;
    }
    match value {
        None => None,
        Some(v) => {
            if v > 255 {
                return None;
            }
            Some((v as u8, end))
        },
    }
}

impl PeerIp {
    /// Parses the dotted-quad IPv4 text form.
    pub fn parse_v4(b: &[u8]) -> (r: Option<PeerIp>)
        ensures
            r == spec_parse_ipv4(b@),
    {
        let n = b.len();
        let (a, i1) = match parse_octet(b, 0) {
            None => {
                return None;
            },
            Some(x) => x,
        };
        if i1 >= n || b[i1] != 46 {
            return None;
        }
        let (c, i2) = match parse_octet(b, i1 + 1) {
            None => {
                return None;
            },
            Some(x) => x,
        };
        if i2 >= n || b[i2] != 46 {
            return None;
        }
        let (d, i3) = match parse_octet(b, i2 + 1) {
            None => {
                return None;
            },
            Some(x) => x,
        };
        if i3 >= n || b[i3] != 46 {
            return None;
        }
        let (e, i4) = match parse_octet(b, i3 + 1) {
            None => {
                return None;
            },
            Some(x) => x,
        };
        if i4 != n {
            return None;
        }
        Some(PeerIp::V4 { a, b: c, c: d, d: e })
    }

    /// Parses the colon-separated IPv6 text form, with at most one `::`.
    pub fn parse_v6(b: &[u8]) -> (r: Option<PeerIp>)
        ensures
            r == spec_parse_ipv6(b@),
    {
        match find_dc(b) {
            None => {
                match parse_groups(b) {
                    None => None,
                    Some(g) => {
                        if g.len() != 8 {
                            return None;
                        }
                        Some(
                            PeerIp::V6 {
                                g0: g[0],
                                g1: g[1],
                                g2: g[2],
                                g3: g[3],
                                g4: g[4],
                                g5: g[5],
                                g6: g[6],
                                g7: g[7],
                            },
                        )
                    },
                }
            },
            Some(p) => {
                let n = b.len();
                let left = vstd::slice::slice_subrange(b, 0, p);
                let right = vstd::slice::slice_subrange(b, p + 2, n);
                proof {
                    assert(left@ =~= b@.take(p as int));
                    assert(right@ =~= b@.skip(p + 2));
                }
                let lgs: Vec<u16> = if left.len() == 0 {
                    Vec::new()
                } else {
                    match parse_groups(left) {
                        None => {
                            return None;
                        },
                        Some(g) => g,
                    }
                };
                let rgs: Vec<u16> = if right.len() == 0 {
                    Vec::new()
                } else {
                    match parse_groups(right) {
                        None => {
                            return None;
                        },
                        Some(g) => g,
                    }
                };
                if lgs.len() > 7 || rgs.len() > 7 || lgs.len() + rgs.len() > 7 {
                    return None;
                }
                let mut groups: Vec<u16> = Vec::new();
                let mut k: usize = 0;
                while k < lgs.len()
                    invariant
                        k <= lgs@.len(),
                        groups@ =~= lgs@.take(k as int),
                    decreases lgs@.len() - k,
                {
                    groups.push(lgs[k]);
                    k = k + 1;
                }
                let zeros = 8 - lgs.len() - rgs.len();
                let mut z: usize = 0;
                while z < zeros
                    invariant
                        z <= zeros,
                        zeros == 8 - lgs@.len() - rgs@.len(),
                        groups@ =~= lgs@ + Seq::<u16>::new(z as nat, |q: int| 0u16),
                    decreases zeros - z,
                {
                    groups.push(0);
                    proof {
                        assert(groups@ =~= lgs@ + Seq::<u16>::new((z + 1) as nat, |q: int| 0u16));
                    }
                    z = z + 1;
                }
                let mut m: usize = 0;
                while m < rgs.len()
                    invariant
                        m <= rgs@.len(),
                        zeros == 8 - lgs@.len() - rgs@.len(),
                        groups@ =~= lgs@ + Seq::<u16>::new(zeros as nat, |q: int| 0u16)
                            + rgs@.take(m as int),
                    decreases rgs@.len() - m,
                {
                    groups.push(rgs[m]);
                    proof {
                        assert(groups@ =~= lgs@ + Seq::<u16>::new(zeros as nat, |q: int| 0u16)
                            + rgs@.take(m + 1));
                    }
                    m = m + 1;
                }
                proof {
                    assert(rgs@.take(rgs@.len() as int) =~= rgs@);
                    assert(groups@.len() == 8);
                }
                Some(
                    PeerIp::V6 {
                        g0: groups[0],
                        g1: groups[1],
                        g2: groups[2],
                        g3: groups[3],
                        g4: groups[4],
                        g5: groups[5],
                        g6: groups[6],
                        g7: groups[7],
                    },
                )
            },
        }
    }

    /// Parses either text form, trying IPv4 first as the combined
    /// address parser does.
    pub fn parse(b: &[u8]) -> (r: Option<PeerIp>)
        ensures
            r == spec_parse_ip(b@),
    {
        match PeerIp::parse_v4(b) {
            Some(ip) => Some(ip),
            None => PeerIp::parse_v6(b),
        }
    }

    /// The text rendering used in announce queries: dotted quad for
    /// IPv4; all eight groups in lowercase hexadecimal, without zero
    /// compression, for IPv6.
    pub open spec fn spec_text(self) -> Seq<char> {
        match self {
            PeerIp::V4 { a, b, c, d } => spec_decimal_chars(a as nat) + seq!['.']
                + spec_decimal_chars(b as nat) + seq!['.'] + spec_decimal_chars(c as nat)
                + seq!['.'] + spec_decimal_chars(d as nat),
            PeerIp::V6 { g0, g1, g2, g3, g4, g5, g6, g7 } => spec_hex_numeral_chars(g0 as nat)
                + seq![':'] + spec_hex_numeral_chars(g1 as nat) + seq![':']
                + spec_hex_numeral_chars(g2 as nat) + seq![':'] + spec_hex_numeral_chars(
                g3 as nat,
            ) + seq![':'] + spec_hex_numeral_chars(g4 as nat) + seq![':']
                + spec_hex_numeral_chars(g5 as nat) + seq![':'] + spec_hex_numeral_chars(
                g6 as nat,
            ) + seq![':'] + spec_hex_numeral_chars(g7 as nat),
        }
    }

    /// Renders the text form described by `spec_text`.
    pub fn to_string(&self) -> (r: String)
        ensures
            r@ == self.spec_text(),
    {
        let mut s = String::new();
        match self {
            PeerIp::V4 { a, b, c, d } => {
                push_decimal_chars(&mut s, *a as u64);
                push_char(&mut s, '.');
                push_decimal_chars(&mut s, *b as u64);
                push_char(&mut s, '.');
                push_decimal_chars(&mut s, *c as u64);
                push_char(&mut s, '.');
                push_decimal_chars(&mut s, *d as u64);
                assert(s@ =~= self.spec_text());
            },
            PeerIp::V6 { g0, g1, g2, g3, g4, g5, g6, g7 } => {
                push_hex_numeral_chars(&mut s, *g0);
                push_char(&mut s, ':');
                push_hex_numeral_chars(&mut s, *g1);
                push_char(&mut s, ':');
                push_hex_numeral_chars(&mut s, *g2);
                push_char(&mut s, ':');
                push_hex_numeral_chars(&mut s, *g3);
                push_char(&mut s, ':');
                push_hex_numeral_chars(&mut s, *g4);
                push_char(&mut s, ':');
                push_hex_numeral_chars(&mut s, *g5);
                push_char(&mut s, ':');
                push_hex_numeral_chars(&mut s, *g6);
                push_char(&mut s, ':');
                push_hex_numeral_chars(&mut s, *g7);
                assert(s@ =~= self.spec_text());
            },
        }
        s
    }
}

/// The ASCII bytes of the text rendering `spec_text`, used where the
/// announce query percent-encodes the address byte for byte.
pub open spec fn spec_text_bytes(p: PeerIp) -> Seq<u8> {
    match p {
        PeerIp::V4 { a, b, c, d } => spec_decimal_bytes(a as nat) + seq![46u8]
            + spec_decimal_bytes(b as nat) + seq![46u8] + spec_decimal_bytes(c as nat)
            + seq![46u8] + spec_decimal_bytes(d as nat),
        PeerIp::V6 { g0, g1, g2, g3, g4, g5, g6, g7 } => spec_hex_numeral_bytes(g0 as nat)
            + seq![58u8] + spec_hex_numeral_bytes(g1 as nat) + seq![58u8]
            + spec_hex_numeral_bytes(g2 as nat) + seq![58u8] + spec_hex_numeral_bytes(g3 as nat)
            + seq![58u8] + spec_hex_numeral_bytes(g4 as nat) + seq![58u8]
            + spec_hex_numeral_bytes(g5 as nat) + seq![58u8] + spec_hex_numeral_bytes(g6 as nat)
            + seq![58u8] + spec_hex_numeral_bytes(g7 as nat),
    }
}

impl PeerIp {
    /// Renders the ASCII bytes of the text form described by
    /// `spec_text_bytes`.
    pub fn to_text_bytes(&self) -> (r: Vec<u8>)
        ensures
            r@ == spec_text_bytes(*self),
    {
        let mut out: Vec<u8> = Vec::new();
        match self {
            PeerIp::V4 { a, b, c, d } => {
                push_decimal_bytes(&mut out, *a as u64);
                out.push(46);
                push_decimal_bytes(&mut out, *b as u64);
                out.push(46);
                push_decimal_bytes(&mut out, *c as u64);
                out.push(46);
                push_decimal_bytes(&mut out, *d as u64);
                assert(out@ =~= spec_text_bytes(*self));
            },
            PeerIp::V6 { g0, g1, g2, g3, g4, g5, g6, g7 } => {
                push_hex_numeral_bytes(&mut out, *g0);
                out.push(58);
                push_hex_numeral_bytes(&mut out, *g1);
                out.push(58);
                push_hex_numeral_bytes(&mut out, *g2);
                out.push(58);
                push_hex_numeral_bytes(&mut out, *g3);
                out.push(58);
                push_hex_numeral_bytes(&mut out, *g4);
                out.push(58);
                push_hex_numeral_bytes(&mut out, *g5);
                out.push(58);
                push_hex_numeral_bytes(&mut out, *g6);
                out.push(58);
                push_hex_numeral_bytes(&mut out, *g7);
                assert(out@ =~= spec_text_bytes(*self));
            },
        }
        out
    }
}

/// The lowercase hexadecimal ASCII byte of a value below 16.
pub open spec fn spec_hex_byte_lower(d: int) -> u8
    recommends
        0 <= d < 16,
{
    if d < 10 {
        (48 + d) as u8
    } else {
        (87 + d) as u8
    }
}

/// Lowercase hexadecimal numeral of `n`, as ASCII bytes, most
/// significant digit first, without leading zeros.
pub open spec fn spec_hex_numeral_bytes(n: nat) -> Seq<u8>
    decreases n,
{
    if n < 16 {
        seq![spec_hex_byte_lower(n as int)]
    } else {
        spec_hex_numeral_bytes(n / 16).push(spec_hex_byte_lower((n % 16) as int))
    }
}

/// Appends the lowercase hexadecimal numeral of `x` as ASCII bytes.
fn push_hex_numeral_bytes(out: &mut Vec<u8>, x: u16)
    ensures
        final(out)@ == old(out)@ + spec_hex_numeral_bytes(x as nat),
    decreases x,
{
    if x < 16 {
        let d = x as u8;
        out.push(if d < 10 {
            48 + d
        } else {
            87 + d
        });
        assert(out@ =~= old(out)@ + spec_hex_numeral_bytes(x as nat));
    } else {
        push_hex_numeral_bytes(out, x / 16);
        let d = (x % 16) as u8;
        out.push(if d < 10 {
            48 + d
        } else {
            87 + d
        });
        assert(out@ =~= old(out)@ + spec_hex_numeral_bytes(x as nat));
    }
}

/// Lowercase hexadecimal numeral of `n`, most significant digit first,
/// without leading zeros (`0` is the single character `0`).
pub open spec fn spec_hex_numeral_chars(n: nat) -> Seq<char>
    decreases n,
{
    if n < 16 {
        seq![spec_hex_char_lower(n as int)]
    } else {
        spec_hex_numeral_chars(n / 16).push(spec_hex_char_lower((n % 16) as int))
    }
}

/// Appends the lowercase hexadecimal numeral of `x` to a string.
fn push_hex_numeral_chars(s: &mut String, x: u16)
    ensures
        final(s)@ == old(s)@ + spec_hex_numeral_chars(x as nat),
    decreases x,
{
    if x < 16 {
        push_char(s, crate::text::hex_char_lower(x as u8));
        assert(s@ =~= old(s)@ + spec_hex_numeral_chars(x as nat));
    } else {
        push_hex_numeral_chars(s, x / 16);
        push_char(s, crate::text::hex_char_lower((x % 16) as u8));
        assert(s@ =~= old(s)@ + spec_hex_numeral_chars(x as nat));
    }
}

} // verus!
