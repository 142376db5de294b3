//! Text utilities shared by the codecs: decimal and hexadecimal rendering,
//! ISO-8859-1 (Latin-1) conversions between byte strings and `String`, and
//! the `application/x-www-form-urlencoded` percent-encoding used by HTTP
//! announce queries.

use vstd::prelude::*;

verus! {

/// Relies on `String::push`: appends exactly the given character.
#[verifier::external_body]
pub(crate) fn push_char(s: &mut String, c: char)
    ensures
        final(s)@ == old(s)@.push(c),
{
    s.push(c);
}

/// The ASCII byte of a decimal digit.
pub open spec fn spec_digit_byte(d: int) -> u8
    recommends
        0 <= d < 10,
{
    (48 + d) as u8
}

/// The ASCII character of a decimal digit.
pub open spec fn spec_digit_char(d: int) -> char
    recommends
        0 <= d < 10,
{
    (48 + d) as char
}

/// Decimal numeral of `n`, as ASCII bytes, most significant digit first,
/// without leading zeros (`0` is the single byte `b'0'`).
pub open spec fn spec_decimal_bytes(n: nat) -> Seq<u8>
    decreases n,
{
    if n < 10 {
        seq![spec_digit_byte(n as int)]
    } else {
        spec_decimal_bytes(n / 10).push(spec_digit_byte((n % 10) as int))
    }
}

/// Decimal numeral of `n`, as characters.
pub open spec fn spec_decimal_chars(n: nat) -> Seq<char>
    decreases n,
{
    if n < 10 {
        seq![spec_digit_char(n as int)]
    } else {
        spec_decimal_chars(n / 10).push(spec_digit_char((n % 10) as int))
    }
}

/// Decimal numeral of a possibly negative integer, as ASCII bytes: a `-`
/// sign followed by the numeral of the magnitude.
pub open spec fn spec_int_decimal_bytes(i: int) -> Seq<u8> {
    if i < 0 {
        seq![45u8] + spec_decimal_bytes((-i) as nat)
    } else {
        spec_decimal_bytes(i as nat)
    }
}

/// Appends the decimal numeral of `x` to `out`.
pub fn push_decimal_bytes(out: &mut Vec<u8>, x: u64)
    ensures
        final(out)@ == old(out)@ + spec_decimal_bytes(x as nat),
    decreases x,
{
    if x < 10 {
        out.push(48 + x as u8);
        assert(out@ =~= old(out)@ + spec_decimal_bytes(x as nat));
    } else {
        push_decimal_bytes(out, x / 10);
        out.push(48 + (x % 10) as u8);
        assert(out@ =~= old(out)@ + spec_decimal_bytes(x as nat));
    }
}

/// Appends the decimal numeral of a signed integer to `out`.
pub fn push_int_decimal_bytes(out: &mut Vec<u8>, x: i64)
    ensures
        final(out)@ == old(out)@ + spec_int_decimal_bytes(x as int),
{
    if x >= 0 {
        push_decimal_bytes(out, x as u64);
    } else {
        out.push(45);
        let mag: u64 = if x == i64::MIN {
            9223372036854775808u64
        } else {
            (-x) as u64
        };
        assert(mag as nat == (-(x as int)) as nat);
        push_decimal_bytes(out, mag);
        assert(out@ =~= old(out)@ + spec_int_decimal_bytes(x as int));
    }
}

/// Appends the decimal numeral of `x` to a string.
pub fn push_decimal_chars(s: &mut String, x: u64)
    ensures
        final(s)@ == old(s)@ + spec_decimal_chars(x as nat),
    decreases x,
{
    if x < 10 {
        push_char(s, (48 + x as u8) as char);
        assert(s@ =~= old(s)@ + spec_decimal_chars(x as nat));
    } else {
        push_decimal_chars(s, x / 10);
        push_char(s, (48 + (x % 10) as u8) as char);
        assert(s@ =~= old(s)@ + spec_decimal_chars(x as nat));
    }
}

/// The lowercase hexadecimal character of a value below 16.
pub open spec fn spec_hex_char_lower(d: int) -> char
    recommends
        0 <= d < 16,
{
    if d < 10 {
        (48 + d) as char
    } else {
        (87 + d) as char
    }
}

/// The uppercase hexadecimal character of a value below 16.
pub open spec fn spec_hex_char_upper(d: int) -> char
    recommends
        0 <= d < 16,
{
    if d < 10 {
        (48 + d) as char
    } else {
        (55 + d) as char
    }
}

/// Lowercase hexadecimal rendering of a byte string, two characters per
/// byte, most significant nibble first.
pub open spec fn spec_hex_lower(s: Seq<u8>) -> Seq<char>
    decreases s.len(),
{
    if s.len() == 0 {
        Seq::<char>::empty()
    } else {
        seq![
            spec_hex_char_lower(s[0] as int / 16),
            spec_hex_char_lower(s[0] as int % 16),
        ] + spec_hex_lower(s.drop_first())
    }
}

/// The lowercase hexadecimal character of `d`.
pub fn hex_char_lower(d: u8) -> (c: char)
    requires
        d < 16,
    ensures
        c == spec_hex_char_lower(d as int),
{
    if d < 10 {
        (48 + d) as char
    } else {
        (87 + d) as char
    }
}

/// The uppercase hexadecimal character of `d`.
pub fn hex_char_upper(d: u8) -> (c: char)
    requires
        d < 16,
    ensures
        c == spec_hex_char_upper(d as int),
{
    if d < 10 {
        (48 + d) as char
    } else {
        (55 + d) as char
    }
}

/// Appends the lowercase hexadecimal rendering of `bytes` to `s`.
pub fn push_hex_lower(s: &mut String, bytes: &[u8])
    ensures
        final(s)@ == old(s)@ + spec_hex_lower(bytes@),
{
    let n = bytes.len();
    let mut i: usize = 0;
    while i < n
        invariant
            n == bytes@.len(),
            i <= n,
            s@ == old(s)@ + spec_hex_lower(bytes@.take(i as int)),
        decreases n - i,
    {
        let b = bytes[i];
        push_char(s, hex_char_lower(b / 16));
        push_char(s, hex_char_lower(b % 16));
        proof {
            lemma_hex_lower_snoc(bytes@, i as int);
        }
        i = i + 1;
    }
    assert(bytes@.take(n as int) =~= bytes@);
}

/// Appending one byte to a string appends its two hexadecimal characters.
proof fn lemma_hex_lower_snoc(s: Seq<u8>, i: int)
    requires
        0 <= i < s.len(),
    ensures
        spec_hex_lower(s.take(i + 1)) == spec_hex_lower(s.take(i)) + seq![
            spec_hex_char_lower(s[i] as int / 16),
            spec_hex_char_lower(s[i] as int % 16),
        ],
    decreases i,
{
    if i == 0 {
        assert(s.take(1) =~= seq![s[0]]);
        assert(s.take(1).drop_first() =~= Seq::<u8>::empty());
        assert(s.take(0) =~= Seq::<u8>::empty());
        assert(spec_hex_lower(s.take(i + 1)) =~= spec_hex_lower(s.take(i)) + seq![
            spec_hex_char_lower(s[i] as int / 16),
            spec_hex_char_lower(s[i] as int % 16),
        ]);
    } else {
        lemma_hex_lower_snoc(s.drop_first(), i - 1);
        assert(s.take(i + 1).drop_first() =~= s.drop_first().take(i));
        assert(s.take(i).drop_first() =~= s.drop_first().take(i - 1));
        assert(spec_hex_lower(s.take(i + 1)) =~= spec_hex_lower(s.take(i)) + seq![
            spec_hex_char_lower(s[i] as int / 16),
            spec_hex_char_lower(s[i] as int % 16),
        ]);
    }
}

/// The Latin-1 (ISO-8859-1) characters of a byte string: each byte is one
/// character with the same code point.
pub open spec fn spec_latin1_chars(s: Seq<u8>) -> Seq<char> {
    s.map_values(|b: u8| b as char)
}

/// The Latin-1 bytes of a character string whose code points all fit in a
/// byte.
pub open spec fn spec_latin1_bytes(s: Seq<char>) -> Seq<u8>
    recommends
        forall|i: int| 0 <= i < s.len() ==> s[i] as u32 <= 255,
{
    s.map_values(|c: char| c as u8)
}

/// Decodes a byte string as ISO-8859-1 text: each byte becomes the
/// character with the same code point.  Total; never fails.
pub fn iso_8859_1_decode(bytes: &[u8]) -> (r: String)
    ensures
        r@ == spec_latin1_chars(bytes@),
{
    let n = bytes.len();
    let mut s = String::new();
    let mut i: usize = 0;
    while i < n
        invariant
            n == bytes@.len(),
            i <= n,
            s@ == spec_latin1_chars(bytes@.take(i as int)),
        decreases n - i,
    {
        push_char(&mut s, bytes[i] as char);
        proof {
            assert(bytes@.take(i + 1) =~= bytes@.take(i as int).push(bytes@[i as int]));
            assert(spec_latin1_chars(bytes@.take(i + 1)) =~= spec_latin1_chars(
                bytes@.take(i as int),
            ).push(bytes@[i as int] as char));
        }
        i = i + 1;
    }
    assert(bytes@.take(n as int) =~= bytes@);
    s
}

/// Encodes ISO-8859-1 text back to bytes: each character becomes the byte
/// with the same code point.  Callers must pass text whose code points all
/// fit in a byte, as Latin-1 requires.
pub fn iso_8859_1_encode(string: &str) -> (r: Vec<u8>)
    requires
        forall|i: int| 0 <= i < string@.len() ==> (#[trigger] string@[i]) as u32 <= 255,
    ensures
        r@ == spec_latin1_bytes(string@),
{
    broadcast use vstd::string::next_postcondition;
    broadcast use vstd::string::axiom_spec_iter;

    let ghost all = string@;
    let mut out: Vec<u8> = Vec::new();
    let mut it = string.chars();
    loop
        invariant
            vstd::std_specs::iter::IteratorSpec::obeys_prophetic_iter_laws(&it),
            vstd::std_specs::iter::IteratorSpec::remaining(&it) =~= all.skip(out@.len() as int),
            out@.len() <= all.len(),
            out@ =~= spec_latin1_bytes(all.take(out@.len() as int)),
            forall|i: int| 0 <= i < all.len() ==> (#[trigger] all[i]) as u32 <= 255,
        ensures
            out@ =~= spec_latin1_bytes(all),
        decreases all.len() - out@.len(),
    {
        let ghost done = out@.len() as int;
        match it.next() {
            None => {
                assert(all.skip(done).len() == 0);
                assert(all.take(done) =~= all);
                break ;
            },
            Some(c) => {
                assert(c == all.skip(done)[0]);
                assert(c == all[done]);
                out.push(c as u8);
                assert(all.skip(done).drop_first() =~= all.skip(done + 1));
                assert(out@ =~= spec_latin1_bytes(all.take(done + 1)));
            },
        }
    }
    out
}

/// An ASCII decimal digit.
pub open spec fn spec_is_digit(b: u8) -> bool {
    48 <= b <= 57
}

/// Scans a (possibly empty) run of decimal digits starting at `i`,
/// accumulating onto `acc`; yields the accumulated value and the position
/// after the last digit.
pub open spec fn spec_scan_digits(b: Seq<u8>, i: int, acc: nat) -> (nat, int)
    decreases b.len() - i, 0int,
{
    if i < b.len() && spec_is_digit(b[i]) {
        spec_scan_digits(b, i + 1, acc * 10 + (b[i] - 48) as nat)
    } else {
        (acc, i)
    }
}

/// A canonical numeral occupies `start..end`: nonempty, and without a
/// leading zero unless it is the single digit `0`.
pub open spec fn spec_canonical_digits(b: Seq<u8>, start: int, end: int) -> bool {
    end > start && (end - start == 1 || b[start] != 48)
}

/// The number denoted by a run of ASCII digits, most significant first.
pub open spec fn spec_digits_val(d: Seq<u8>) -> nat
    decreases d.len(),
{
    if d.len() == 0 {
        0
    } else {
        spec_digits_val(d.drop_last()) * 10 + (d.last() - 48) as nat
    }
}

/// Powers of ten.
pub open spec fn spec_pow10(k: nat) -> nat
    decreases k,
{
    if k == 0 {
        1
    } else {
        10 * spec_pow10((k - 1) as nat)
    }
}

/// Peeling the most significant digit off a digit run.
proof fn lemma_digits_val_left_unfold(d: Seq<u8>)
    requires
        d.len() >= 1,
        forall|k: int| 0 <= k < d.len() ==> spec_is_digit(#[trigger] d[k]),
    ensures
        spec_digits_val(d) == (d[0] - 48) * spec_pow10((d.len() - 1) as nat) + spec_digits_val(
            d.drop_first(),
        ),
    decreases d.len(),
{
    if d.len() == 1 {
        assert(d.drop_last() =~= Seq::<u8>::empty());
        assert(d.drop_first() =~= Seq::<u8>::empty());
        assert(d.last() == d[0]);
        assert(spec_pow10(0) == 1);
        assert((d[0] - 48) * 1 == d[0] - 48) by (nonlinear_arith);
    } else {
        let head = d[0] - 48;
        let p = spec_pow10((d.len() - 2) as nat);
        lemma_digits_val_left_unfold(d.drop_last());
        assert(d.drop_last()[0] == d[0]);
        assert(d.drop_last().drop_first() =~= d.drop_first().drop_last());
        assert(d.drop_first().last() == d.last());
        assert(spec_digits_val(d) == (head * p + spec_digits_val(d.drop_first().drop_last()))
            * 10 + (d.last() - 48) as nat);
        assert((head * p + spec_digits_val(d.drop_first().drop_last())) * 10 + (d.last() - 48)
            as nat == head * (10 * p) + (spec_digits_val(d.drop_first().drop_last()) * 10 + (
        d.last() - 48) as nat)) by (nonlinear_arith);
        assert(spec_pow10((d.len() - 1) as nat) == 10 * p);
    }
}

/// A digit scan yields the value of the digits it consumed, on top of
/// the accumulator, and stops at the first non-digit.
pub proof fn lemma_scan_digits_general(b: Seq<u8>, s: int, acc: nat)
    requires
        0 <= s <= b.len(),
    ensures
        ({
            let (n, e) = spec_scan_digits(b, s, acc);
            &&& s <= e <= b.len()
            &&& (forall|k: int| s <= k < e ==> spec_is_digit(#[trigger] b[k]))
            &&& (e < b.len() ==> !spec_is_digit(b[e]))
            &&& n == acc * spec_pow10((e - s) as nat) + spec_digits_val(b.subrange(s, e))
        }),
    decreases b.len() - s,
{
    let (n, e) = spec_scan_digits(b, s, acc);
    if s < b.len() && spec_is_digit(b[s]) {
        let d = (b[s] - 48) as nat;
        lemma_scan_digits_general(b, s + 1, acc * 10 + d);
        let run = b.subrange(s, e);
        assert(run.len() == e - s);
        assert(run[0] == b[s]);
        assert(run.drop_first() =~= b.subrange(s + 1, e));
        assert(forall|k: int| 0 <= k < run.len() ==> spec_is_digit(#[trigger] run[k])) by {
            assert(forall|k: int| 0 <= k < run.len() ==> run[k] == b[s + k]);
        }
        lemma_digits_val_left_unfold(run);
        let p = spec_pow10((e - s - 1) as nat);
        assert(n == (acc * 10 + d) * p + spec_digits_val(b.subrange(s + 1, e)));
        assert((acc * 10 + d) * p == acc * (10 * p) + d * p) by (nonlinear_arith);
        assert(spec_pow10((e - s) as nat) == 10 * p);
        assert(spec_digits_val(run) == d * p + spec_digits_val(b.subrange(s + 1, e)));
    } else {
        assert(e == s);
        assert(b.subrange(s, e) =~= Seq::<u8>::empty());
        assert(acc * spec_pow10(0) == acc) by (nonlinear_arith);
    }
}

/// A nonempty digit run without a leading zero denotes a positive
/// number.
pub proof fn lemma_digits_val_positive(d: Seq<u8>)
    requires
        d.len() >= 1,
        forall|k: int| 0 <= k < d.len() ==> spec_is_digit(#[trigger] d[k]),
        d[0] != 48,
    ensures
        spec_digits_val(d) >= 1,
    decreases d.len(),
{
    if d.len() == 1 {
        assert(d.last() == d[0]);
    } else {
        lemma_digits_val_positive(d.drop_last());
        assert(spec_digits_val(d.drop_last()) * 10 >= 10) by (nonlinear_arith)
            requires
                spec_digits_val(d.drop_last()) >= 1,
        ;
    }
}

/// A canonical digit run is the decimal numeral of its value: rendering
/// the value reproduces exactly the digits.
pub proof fn lemma_digits_render(d: Seq<u8>)
    requires
        d.len() >= 1,
        forall|k: int| 0 <= k < d.len() ==> spec_is_digit(#[trigger] d[k]),
        d.len() == 1 || d[0] != 48,
    ensures
        spec_decimal_bytes(spec_digits_val(d)) == d,
    decreases d.len(),
{
    let n = spec_digits_val(d);
    if d.len() == 1 {
        assert(d.drop_last() =~= Seq::<u8>::empty());
        assert(d.last() == d[0]);
        assert(spec_is_digit(d[0]));
        assert(spec_digits_val(d.drop_last()) == 0);
        assert(n == spec_digits_val(d.drop_last()) * 10 + (d.last() - 48) as nat);
        assert(n == (d[0] - 48) as nat);
        assert(n < 10);
        assert(spec_decimal_bytes(n) =~= d);
    } else {
        let m = spec_digits_val(d.drop_last());
        let l = (d.last() - 48) as nat;
        assert(d.drop_last()[0] == d[0]);
        lemma_digits_val_positive(d.drop_last());
        lemma_digits_render(d.drop_last());
        assert(n == m * 10 + l);
        assert(m * 10 + l >= 10 && (m * 10 + l) / 10 == m && (m * 10 + l) % 10 == l)
            by (nonlinear_arith)
            requires
                m >= 1,
                l < 10,
        ;
        assert(spec_decimal_bytes(n) == spec_decimal_bytes(m).push(spec_digit_byte(l as int)));
        assert(spec_digit_byte(l as int) == d.last());
        assert(spec_decimal_bytes(n) =~= d);
    }
}

/// Scans a digit run, reporting the value when it fits in `u64` and the
/// position after the run either way.
pub(crate) fn scan_digits(b: &[u8], i: usize) -> (r: (Option<u64>, usize))
    requires
        i <= b@.len(),
    ensures
        i <= r.1 <= b@.len(),
        r.1 == spec_scan_digits(b@, i as int, 0).1,
        r.0 matches Some(v) ==> v as nat == spec_scan_digits(b@, i as int, 0).0,
        r.0 is None ==> spec_scan_digits(b@, i as int, 0).0 > u64::MAX,
{
    let n = b.len();
    let mut p = i;
    let mut acc: u64 = 0;
    let mut over = false;
    let ghost mut acc_spec: nat = 0nat;
    while p < n && 48 <= b[p] && b[p] <= 57
        invariant
            i <= p <= n,
            n == b@.len(),
            spec_scan_digits(b@, i as int, 0) == spec_scan_digits(b@, p as int, acc_spec),
            !over ==> acc == acc_spec,
            over ==> acc_spec > u64::MAX,
        decreases n - p,
    {
        let d = b[p] - 48;
        proof {
            acc_spec = acc_spec * 10 + (b@[p as int] - 48) as nat;
        }
        if !over {
            let wide: u128 = (acc as u128) * 10 + (d as u128);
            if wide > 0xffff_ffff_ffff_ffff {
                over = true;
            } else {
                acc = wide as u64;
            }
        } else {
            proof {
                assert(acc_spec >= (acc_spec / 10) * 10) by (nonlinear_arith);
            }
        }
        p = p + 1;
    }
    if over {
        (None, p)
    } else {
        (Some(acc), p)
    }
}

/// Every byte of a decimal numeral is a digit.
pub proof fn lemma_decimal_bytes_digits(n: nat)
    ensures
        spec_decimal_bytes(n).len() >= 1,
        forall|k: int|
            0 <= k < spec_decimal_bytes(n).len() ==> spec_is_digit(
                #[trigger] spec_decimal_bytes(n)[k],
            ),
    decreases n,
{
    if n >= 10 {
        lemma_decimal_bytes_digits(n / 10);
    }
}

/// A positive number's numeral does not start with a zero.
pub proof fn lemma_decimal_bytes_leading(n: nat)
    requires
        n >= 1,
    ensures
        spec_decimal_bytes(n)[0] != 48,
    decreases n,
{
    if n >= 10 {
        lemma_decimal_bytes_leading(n / 10);
        assert(spec_decimal_bytes(n)[0] == spec_decimal_bytes(n / 10)[0]) by {
            lemma_decimal_bytes_digits(n / 10);
        }
    }
}

/// The value of a number's numeral is the number.
pub proof fn lemma_val_of_decimal(n: nat)
    ensures
        spec_digits_val(spec_decimal_bytes(n)) == n,
    decreases n,
{
    let d = spec_decimal_bytes(n);
    if n < 10 {
        assert(d =~= seq![spec_digit_byte(n as int)]);
        assert(d.drop_last() =~= Seq::<u8>::empty());
        assert(d.last() == spec_digit_byte(n as int));
        assert(spec_digits_val(d.drop_last()) == 0);
        assert((spec_digit_byte(n as int) - 48) as nat == n);
        assert(spec_digits_val(d) == spec_digits_val(d.drop_last()) * 10 + (d.last() - 48)
            as nat);
    } else {
        lemma_val_of_decimal(n / 10);
        let prev = spec_decimal_bytes(n / 10);
        assert(d == prev.push(spec_digit_byte((n % 10) as int)));
        assert(d.drop_last() =~= prev);
        assert(d.last() == spec_digit_byte((n % 10) as int));
        assert(spec_digits_val(d) == (n / 10) * 10 + n % 10);
    }
}

/// Scanning a numeral that is followed by a non-digit (or by the end of
/// the buffer) consumes exactly the numeral and yields its value.
pub proof fn lemma_scan_of_decimal(b: Seq<u8>, i: int, n: nat)
    requires
        0 <= i,
        i + spec_decimal_bytes(n).len() <= b.len(),
        b.subrange(i, i + spec_decimal_bytes(n).len() as int) == spec_decimal_bytes(n),
        i + spec_decimal_bytes(n).len() == b.len() || !spec_is_digit(
            b[i + spec_decimal_bytes(n).len() as int],
        ),
    ensures
        spec_scan_digits(b, i, 0) == (n, i + spec_decimal_bytes(n).len() as int),
{
    let d = spec_decimal_bytes(n);
    let stop = i + d.len() as int;
    lemma_decimal_bytes_digits(n);
    lemma_scan_digits_general(b, i, 0);
    let (got, e) = spec_scan_digits(b, i, 0);
    assert(forall|k: int| i <= k < stop ==> spec_is_digit(#[trigger] b[k])) by {
        assert(forall|k: int| i <= k < stop ==> b[k] == d[k - i]);
    }
    if e < stop {
        assert(spec_is_digit(b[e]));
        assert(false);
    }
    if e > stop {
        assert(spec_is_digit(b[stop]));
        assert(false);
    }
    assert(e == stop);
    assert(b.subrange(i, e) == d);
    assert(0 * spec_pow10((e - i) as nat) == 0) by (nonlinear_arith);
    lemma_val_of_decimal(n);
}
} // verus!
