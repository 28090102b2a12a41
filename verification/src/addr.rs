//! Textual network endpoints: literal IPv4 `host:port` addresses.
//!
//! An address has one canonical text form (no leading zeros); parsing
//! succeeds exactly on canonical forms and is proved to round-trip with
//! rendering.

use vstd::prelude::*;

use crate::errors::{Error, ErrorType};
use crate::text::{ascii_chars, is_digit};
use vstd::string::StringSliceAdditionalSpecFns;
use vstd::string::StrSliceExecFns;

verus! {

/// A parsed IPv4 endpoint.
#[derive(Debug, Clone, Copy, PartialEq, Eq, Structural)]
pub struct Address {
    pub ip0: u8,
    pub ip1: u8,
    pub ip2: u8,
    pub ip3: u8,
    pub port: u16,
}

/// Canonical decimal rendering of a nonnegative number, as digit bytes.
pub open spec fn dec_bytes(n: int) -> Seq<u8>
    recommends
        n >= 0,
    decreases n,
{
    if n < 10 {
        seq![(n + '0' as u8) as u8]
    } else {
        dec_bytes(n / 10) + seq![(n % 10 + '0' as u8) as u8]
    }
}

/// The number a sequence of digit bytes denotes.
pub open spec fn digits_val(s: Seq<u8>) -> int
    decreases s.len(),
{
    if s.len() == 0 {
        0
    } else {
        digits_val(s.drop_last()) * 10 + (s.last() - '0' as u8)
    }
}

/// Every byte of the sequence is a decimal digit.
pub open spec fn all_digits(s: Seq<u8>) -> bool {
    forall|k: int| 0 <= k < s.len() ==> is_digit(#[trigger] s[k])
}

/// A canonical decimal numeral: nonempty, digits only, no leading zero.
pub open spec fn canonical_dec(s: Seq<u8>) -> bool {
    s.len() > 0 && all_digits(s) && (s.len() == 1 || s[0] != '0' as u8)
}

/// End of the run of digit bytes that starts at `i`.
pub open spec fn scan_digits(s: Seq<u8>, i: int) -> int
    recommends
        0 <= i <= s.len(),
    decreases s.len() - i,
{
    if 0 <= i < s.len() && is_digit(s[i]) {
        scan_digits(s, i + 1)
    } else {
        i
    }
}

/// Ten to the `k`-th power.
pub open spec fn pow10(k: int) -> int
    recommends
        k >= 0,
    decreases k,
{
    if k <= 0 {
        1
    } else {
        10 * pow10(k - 1)
    }
}

pub(crate) proof fn lemma_dec_bytes_canonical(n: int)
    requires
        n >= 0,
    ensures
        canonical_dec(dec_bytes(n)),
        digits_val(dec_bytes(n)) == n,
        n < 10 ==> dec_bytes(n).len() == 1,
        n >= 10 ==> dec_bytes(n).len() >= 2,
    decreases n,
{
    if n < 10 {
        assert(dec_bytes(n) =~= seq![(n + '0' as u8) as u8]);
        assert(dec_bytes(n).drop_last() =~= Seq::<u8>::empty());
        assert(digits_val(dec_bytes(n).drop_last()) == 0);
        assert(digits_val(dec_bytes(n)) == n);
    } else {
        lemma_dec_bytes_canonical(n / 10);
        let front = dec_bytes(n / 10);
        let s = dec_bytes(n);
        assert(s =~= front + seq![(n % 10 + '0' as u8) as u8]);
        assert(s.drop_last() =~= front);
        assert(s[0] == front[0]);
        assert(forall|k: int| 0 <= k < front.len() ==> s[k] == front[k]);
        assert(all_digits(s));
        assert(s.last() == (n % 10 + '0' as u8) as u8);
        assert(s.last() - '0' as u8 == n % 10);
        assert(digits_val(s) == digits_val(front) * 10 + (n % 10));
        assert(digits_val(front) == n / 10);
        assert((n / 10) * 10 + n % 10 == n) by (nonlinear_arith);
        assert(digits_val(s) == n);
    }
}

/// A canonical numeral renders back from its value.
pub(crate) proof fn lemma_canonical_dec_bytes(s: Seq<u8>)
    requires
        canonical_dec(s),
    ensures
        digits_val(s) >= 0,
        dec_bytes(digits_val(s)) == s,
        s[0] != '0' as u8 ==> digits_val(s) >= pow10(s.len() - 1),
        digits_val(s) < pow10(s.len() as int),
    decreases s.len(),
{
    let front = s.drop_last();
    let d = (s.last() - '0' as u8) as int;
    if s.len() == 1 {
        assert(digits_val(s) == d);
        if s[0] != '0' as u8 {
            assert(is_digit(s[0]));
            assert(d >= 1);
        }
        assert(dec_bytes(d) =~= s);
    } else {
        assert(forall|k: int| 0 <= k < front.len() ==> front[k] == s[k]);
        assert(canonical_dec(front));
        lemma_canonical_dec_bytes(front);
        let v = digits_val(s);
        assert(v == digits_val(front) * 10 + d);
        assert(digits_val(front) >= pow10(front.len() - 1) >= 1);
        assert(v >= 10);
        assert(v / 10 == digits_val(front) && v % 10 == d) by (nonlinear_arith)
            requires
                v == digits_val(front) * 10 + d,
                0 <= d < 10,
                digits_val(front) >= 0,
        ;
        assert(dec_bytes(v) == dec_bytes(v / 10) + seq![(v % 10 + '0' as u8) as u8]);
        assert(dec_bytes(v) =~= s);
        assert(v >= digits_val(front) * 10 >= pow10(front.len() - 1) * 10) by (nonlinear_arith)
            requires
                v == digits_val(front) * 10 + d,
                d >= 0,
                digits_val(front) >= pow10(front.len() - 1),
                pow10(front.len() - 1) >= 1,
        ;
        assert(pow10(front.len() - 1) * 10 == pow10(s.len() - 1));
        assert(digits_val(front) < pow10(front.len() as int));
        assert(v < digits_val(front) * 10 + 10 <= pow10(front.len() as int) * 10) by (nonlinear_arith)
            requires
                v == digits_val(front) * 10 + d,
                d < 10,
                digits_val(front) < pow10(front.len() as int),
        ;
        assert(pow10(front.len() as int) * 10 == pow10(s.len() as int));
    }
}

/// A long enough run of digits without a leading zero denotes a big value.
proof fn lemma_digits_val_big(s: Seq<u8>)
    requires
        canonical_dec(s),
        s.len() >= 6,
    ensures
        digits_val(s) > 65535,
{
    lemma_canonical_dec_bytes(s);
    lemma_pow10_monotone(5, s.len() - 1);
    assert(pow10(0) == 1);
    assert(pow10(1) == 10);
    assert(pow10(2) == 100);
    assert(pow10(3) == 1000);
    assert(pow10(4) == 10000);
    assert(pow10(5) == 100000);
}

pub(crate) proof fn lemma_pow10_monotone(a: int, b: int)
    requires
        0 <= a <= b,
    ensures
        pow10(a) <= pow10(b),
        pow10(a) >= 1,
    decreases b,
{
    if a < b {
        lemma_pow10_monotone(a, b - 1);
    } else {
        if a > 0 {
            lemma_pow10_monotone(a - 1, a - 1);
        }
    }
}

/// The digits run starting at `i` ends exactly at `j`.
proof fn lemma_scan_digits_exact(s: Seq<u8>, i: int, j: int)
    requires
        0 <= i <= j <= s.len(),
        forall|k: int| i <= k < j ==> is_digit(#[trigger] s[k]),
        j == s.len() || !is_digit(s[j]),
    ensures
        scan_digits(s, i) == j,
    decreases j - i,
{
    if i < j {
        lemma_scan_digits_exact(s, i + 1, j);
    }
}

/// Basic bounds of `scan_digits`.
pub(crate) proof fn lemma_scan_digits_bounds(s: Seq<u8>, i: int)
    requires
        0 <= i <= s.len(),
    ensures
        i <= scan_digits(s, i) <= s.len(),
        forall|k: int| i <= k < scan_digits(s, i) ==> is_digit(#[trigger] s[k]),
        scan_digits(s, i) == s.len() || !is_digit(s[scan_digits(s, i)]),
    decreases s.len() - i,
{
    if i < s.len() && is_digit(s[i]) {
        lemma_scan_digits_bounds(s, i + 1);
    }
}

/// The numeric field starting at `i` is a canonical numeral no bigger
/// than `max`.
pub open spec fn field_ok(s: Seq<u8>, i: int, max: int) -> bool {
    let e = scan_digits(s, i);
    e > i && canonical_dec(s.subrange(i, e)) && digits_val(s.subrange(i, e)) <= max
}

/// The value of the numeric field starting at `i`.
pub open spec fn field_val(s: Seq<u8>, i: int) -> int {
    digits_val(s.subrange(i, scan_digits(s, i)))
}

/// Canonical text of an address: `a.b.c.d:port`, all parts in canonical
/// decimal.
pub open spec fn addr_bytes(a: Address) -> Seq<u8> {
    dec_bytes(a.ip0 as int) + seq!['.' as u8] + dec_bytes(a.ip1 as int) + seq!['.' as u8]
        + dec_bytes(a.ip2 as int) + seq!['.' as u8] + dec_bytes(a.ip3 as int) + seq![':' as u8]
        + dec_bytes(a.port as int)
}

/// Canonical text of an address, as chars.
pub open spec fn addr_chars(a: Address) -> Seq<char> {
    ascii_chars(addr_bytes(a))
}

/// What parsing address text yields: the unique address whose canonical
/// form the text is, or nothing.
pub open spec fn parse_addr(s: Seq<u8>) -> Option<Address> {
    let e1 = scan_digits(s, 0);
    let i2 = e1 + 1;
    let e2 = scan_digits(s, i2);
    let i3 = e2 + 1;
    let e3 = scan_digits(s, i3);
    let i4 = e3 + 1;
    let e4 = scan_digits(s, i4);
    let ip = e4 + 1;
    let ep = scan_digits(s, ip);
    if field_ok(s, 0, 255) && e1 < s.len() && s[e1] == '.' as u8 && field_ok(s, i2, 255) && e2
        < s.len() && s[e2] == '.' as u8 && field_ok(s, i3, 255) && e3 < s.len() && s[e3]
        == '.' as u8 && field_ok(s, i4, 255) && e4 < s.len() && s[e4] == ':' as u8 && field_ok(
        s,
        ip,
        65535,
    ) && ep == s.len() {
        Some(
            Address {
                ip0: field_val(s, 0) as u8,
                ip1: field_val(s, i2) as u8,
                ip2: field_val(s, i3) as u8,
                ip3: field_val(s, i4) as u8,
                port: field_val(s, ip) as u16,
            },
        )
    } else {
        None
    }
}

/// All-digit sequences denote values below `pow10` of their length.
pub(crate) proof fn lemma_digits_val_upper(s: Seq<u8>)
    requires
        all_digits(s),
    ensures
        0 <= digits_val(s) < pow10(s.len() as int),
    decreases s.len(),
{
    if s.len() > 0 {
        let front = s.drop_last();
        assert(forall|k: int| 0 <= k < front.len() ==> front[k] == s[k]);
        lemma_digits_val_upper(front);
        assert(digits_val(s) == digits_val(front) * 10 + (s.last() - '0' as u8));
        assert(digits_val(front) * 10 + 9 < pow10(front.len() as int) * 10) by (nonlinear_arith)
            requires
                digits_val(front) < pow10(front.len() as int),
        ;
        assert(pow10(front.len() as int) * 10 == pow10(s.len() as int));
    }
}

proof fn lemma_pow10_small()
    ensures
        pow10(0) == 1,
        pow10(1) == 10,
        pow10(2) == 100,
        pow10(3) == 1000,
        pow10(4) == 10000,
        pow10(5) == 100000,
{
    assert(pow10(0) == 1);
    assert(pow10(1) == 10);
    assert(pow10(2) == 100);
    assert(pow10(3) == 1000);
    assert(pow10(4) == 10000);
    assert(pow10(5) == 100000);
}

/// A numeral placed at `i` inside `s` is exactly what the field reader
/// sees there.
pub(crate) proof fn lemma_field_at(s: Seq<u8>, i: int, n: int, max: int)
    requires
        0 <= i,
        0 <= n <= max,
        i + dec_bytes(n).len() <= s.len(),
        s.subrange(i, i + dec_bytes(n).len()) == dec_bytes(n),
        i + dec_bytes(n).len() == s.len() || !is_digit(s[i + dec_bytes(n).len()]),
    ensures
        scan_digits(s, i) == i + dec_bytes(n).len(),
        field_ok(s, i, max),
        field_val(s, i) == n,
{
    lemma_dec_bytes_canonical(n);
    let e = i + dec_bytes(n).len();
    assert(forall|k: int| i <= k < e ==> is_digit(#[trigger] s[k])) by {
        assert(forall|k: int|
            i <= k < e ==> #[trigger] s[k] == s.subrange(i, e)[k - i] == dec_bytes(n)[k - i]);
    }
    lemma_scan_digits_exact(s, i, e);
}

/// Rendering an address and parsing the text gives the address back.
pub proof fn lemma_parse_addr_complete(a: Address)
    ensures
        parse_addr(addr_bytes(a)) == Some(a),
{
    let s = addr_bytes(a);
    let d0 = dec_bytes(a.ip0 as int);
    let d1 = dec_bytes(a.ip1 as int);
    let d2 = dec_bytes(a.ip2 as int);
    let d3 = dec_bytes(a.ip3 as int);
    let dp = dec_bytes(a.port as int);
    lemma_dec_bytes_canonical(a.ip0 as int);
    lemma_dec_bytes_canonical(a.ip1 as int);
    lemma_dec_bytes_canonical(a.ip2 as int);
    lemma_dec_bytes_canonical(a.ip3 as int);
    lemma_dec_bytes_canonical(a.port as int);
    let e1 = d0.len() as int;
    let i2 = e1 + 1;
    let e2 = i2 + d1.len();
    let i3 = e2 + 1;
    let e3 = i3 + d2.len();
    let i4 = e3 + 1;
    let e4 = i4 + d3.len();
    let ip = e4 + 1;
    let ep = ip + dp.len();
    assert(s.len() == ep);
    assert(s.subrange(0, e1) =~= d0);
    assert(s[e1] == '.' as u8);
    assert(s.subrange(i2, e2) =~= d1);
    assert(s[e2] == '.' as u8);
    assert(s.subrange(i3, e3) =~= d2);
    assert(s[e3] == '.' as u8);
    assert(s.subrange(i4, e4) =~= d3);
    assert(s[e4] == ':' as u8);
    assert(s.subrange(ip, ep) =~= dp);
    assert(!is_digit('.' as u8));
    assert(!is_digit(':' as u8));
    lemma_field_at(s, 0, a.ip0 as int, 255);
    lemma_field_at(s, i2, a.ip1 as int, 255);
    lemma_field_at(s, i3, a.ip2 as int, 255);
    lemma_field_at(s, i4, a.ip3 as int, 255);
    lemma_field_at(s, ip, a.port as int, 65535);
}

/// Parsing address text and rendering the result gives the text back: the
/// parser accepts exactly the canonical forms.
pub proof fn lemma_parse_addr_sound(s: Seq<u8>, a: Address)
    requires
        parse_addr(s) == Some(a),
    ensures
        addr_bytes(a) == s,
{
    let e1 = scan_digits(s, 0);
    let i2 = e1 + 1;
    let e2 = scan_digits(s, i2);
    let i3 = e2 + 1;
    let e3 = scan_digits(s, i3);
    let i4 = e3 + 1;
    let e4 = scan_digits(s, i4);
    let ip = e4 + 1;
    let ep = scan_digits(s, ip);
    lemma_scan_digits_bounds(s, 0);
    lemma_scan_digits_bounds(s, i2);
    lemma_scan_digits_bounds(s, i3);
    lemma_scan_digits_bounds(s, i4);
    lemma_scan_digits_bounds(s, ip);
    lemma_canonical_dec_bytes(s.subrange(0, e1));
    lemma_canonical_dec_bytes(s.subrange(i2, e2));
    lemma_canonical_dec_bytes(s.subrange(i3, e3));
    lemma_canonical_dec_bytes(s.subrange(i4, e4));
    lemma_canonical_dec_bytes(s.subrange(ip, ep));
    assert(a.ip0 as int == field_val(s, 0));
    assert(a.ip1 as int == field_val(s, i2));
    assert(a.ip2 as int == field_val(s, i3));
    assert(a.ip3 as int == field_val(s, i4));
    assert(a.port as int == field_val(s, ip));
    assert(dec_bytes(a.ip0 as int) == s.subrange(0, e1));
    assert(dec_bytes(a.ip1 as int) == s.subrange(i2, e2));
    assert(dec_bytes(a.ip2 as int) == s.subrange(i3, e3));
    assert(dec_bytes(a.ip3 as int) == s.subrange(i4, e4));
    assert(dec_bytes(a.port as int) == s.subrange(ip, ep));
    assert(addr_bytes(a) =~= s);
}

/// Two different addresses never share a canonical text.
pub proof fn lemma_addr_bytes_injective(a: Address, b: Address)
    requires
        addr_bytes(a) == addr_bytes(b),
    ensures
        a == b,
{
    lemma_parse_addr_complete(a);
    lemma_parse_addr_complete(b);
}

fn scan_digits_exec(s: &Vec<u8>, i: usize) -> (e: usize)
    requires
        i <= s@.len(),
    ensures
        e as int == scan_digits(s@, i as int),
        i <= e <= s@.len(),
{
    let mut j = i;
    while j < s.len() && '0' as u8 <= s[j] && s[j] <= '9' as u8
        invariant
            i <= j <= s@.len(),
            scan_digits(s@, i as int) == scan_digits(s@, j as int),
        decreases s@.len() - j,
    {
        j += 1;
    }
    j
}

/// Read the numeric field at `i`: its value and where it ends, or nothing
/// where no canonical numeral up to `max` stands there.
pub(crate) fn parse_field(s: &Vec<u8>, i: usize, max: u32) -> (r: Option<(u32, usize)>)
    requires
        i <= s@.len(),
        max <= 65535,
    ensures
        match r {
            Some(p) => field_ok(s@, i as int, max as int) && p.0 as int == field_val(
                s@,
                i as int,
            ) && p.1 as int == scan_digits(s@, i as int) && i < p.1 <= s@.len() && p.0 <= max,
            None => !field_ok(s@, i as int, max as int),
        },
{
    let e = scan_digits_exec(s, i);
    proof {
        lemma_scan_digits_bounds(s@, i as int);
    }
    if e == i {
        return None;
    }
    let ghost run = s@.subrange(i as int, e as int);
    proof {
        assert(all_digits(run));
    }
    if s[i] == '0' as u8 && e - i > 1 {
        proof {
            assert(run[0] == '0' as u8);
            assert(!canonical_dec(run));
        }
        return None;
    }
    if e - i > 5 {
        proof {
            assert(canonical_dec(run));
            lemma_digits_val_big(run);
        }
        return None;
    }
    let mut v: u32 = 0;
    let mut j = i;
    while j < e
        invariant
            i <= j <= e <= s@.len(),
            e - i <= 5,
            e as int == scan_digits(s@, i as int),
            forall|k: int| i <= k < e ==> is_digit(#[trigger] s@[k]),
            v as int == digits_val(s@.subrange(i as int, j as int)),
        decreases e - j,
    {
        proof {
            lemma_digits_val_upper(s@.subrange(i as int, j as int));
            lemma_pow10_monotone(j - i, 4);
            lemma_pow10_small();
            assert(s@.subrange(i as int, j + 1).drop_last() =~= s@.subrange(i as int, j as int));
        }
        let d = s[j] - '0' as u8;
        v = v * 10 + d as u32;
        j += 1;
    }
    proof {
        assert(canonical_dec(run));
    }
    if v > max {
        proof {
            assert(digits_val(run) > max);
        }
        None
    } else {
        Some((v, e))
    }
}

/// Parse address text given as raw bytes.
pub fn parse_addr_bytes(s: &Vec<u8>) -> (r: Option<Address>)
    ensures
        r == parse_addr(s@),
{
    let p1 = match parse_field(s, 0, 255) {
        Some(p) => p,
        None => {
            return None;
        },
    };
    let (v1, e1) = p1;
    if e1 == s.len() || s[e1] != '.' as u8 {
        return None;
    }
    let p2 = match parse_field(s, e1 + 1, 255) {
        Some(p) => p,
        None => {
            return None;
        },
    };
    let (v2, e2) = p2;
    if e2 == s.len() || s[e2] != '.' as u8 {
        return None;
    }
    let p3 = match parse_field(s, e2 + 1, 255) {
        Some(p) => p,
        None => {
            return None;
        },
    };
    let (v3, e3) = p3;
    if e3 == s.len() || s[e3] != '.' as u8 {
        return None;
    }
    let p4 = match parse_field(s, e3 + 1, 255) {
        Some(p) => p,
        None => {
            return None;
        },
    };
    let (v4, e4) = p4;
    if e4 == s.len() || s[e4] != ':' as u8 {
        return None;
    }
    let pp = match parse_field(s, e4 + 1, 65535) {
        Some(p) => p,
        None => {
            return None;
        },
    };
    let (vp, ep) = pp;
    if ep != s.len() {
        return None;
    }
    Some(
        Address {
            ip0: v1 as u8,
            ip1: v2 as u8,
            ip2: v3 as u8,
            ip3: v4 as u8,
            port: vp as u16,
        },
    )
}

/// Parse a textual `host:port` endpoint; the host must be a literal
/// numeric address.
pub fn parse_address(address_string: &str) -> (r: Result<Address, Error>)
    ensures
        match r {
            Ok(a) => parse_addr(address_string.spec_bytes()) == Some(a),
            Err(e) => parse_addr(address_string.spec_bytes()) is None && e.error_type
                == ErrorType::InvalidIpFormat && e.message@ == "Could not parse address"@,
        },
{
    let bytes = address_string.as_bytes_vec();
    match parse_addr_bytes(&bytes) {
        Some(a) => Ok(a),
        None => Err(Error::new(ErrorType::InvalidIpFormat, "Could not parse address")),
    }
}

/// Append the canonical decimal form of `n`.
pub(crate) fn push_dec(out: &mut Vec<u8>, n: u16)
    ensures
        final(out)@ == old(out)@ + dec_bytes(n as int),
    decreases n,
{
    if n < 10 {
        out.push(n as u8 + '0' as u8);
        proof {
            assert(out@ =~= old(out)@ + dec_bytes(n as int));
        }
    } else {
        push_dec(out, n / 10);
        out.push((n % 10) as u8 + '0' as u8);
        proof {
            assert(out@ =~= old(out)@ + dec_bytes(n as int));
        }
    }
}

/// The canonical text of an address, as raw bytes.
pub fn addr_to_bytes(a: &Address) -> (r: Vec<u8>)
    ensures
        r@ == addr_bytes(*a),
{
    let mut out: Vec<u8> = Vec::new();
    push_dec(&mut out, a.ip0 as u16);
    out.push('.' as u8);
    push_dec(&mut out, a.ip1 as u16);
    out.push('.' as u8);
    push_dec(&mut out, a.ip2 as u16);
    out.push('.' as u8);
    push_dec(&mut out, a.ip3 as u16);
    out.push(':' as u8);
    push_dec(&mut out, a.port);
    proof {
        assert(out@ =~= addr_bytes(*a));
    }
    out
}

/// Canonical text of the host part alone: `a.b.c.d`.
pub open spec fn ip_bytes(a: Address) -> Seq<u8> {
    dec_bytes(a.ip0 as int) + seq!['.' as u8] + dec_bytes(a.ip1 as int) + seq!['.' as u8]
        + dec_bytes(a.ip2 as int) + seq!['.' as u8] + dec_bytes(a.ip3 as int)
}

/// The host text of an address holds digits and dots alone, and is never
/// empty.
pub proof fn lemma_ip_bytes_chars(a: Address)
    ensures
        ip_bytes(a).len() > 0,
        forall|k: int|
            0 <= k < ip_bytes(a).len() ==> is_digit(#[trigger] ip_bytes(a)[k]) || ip_bytes(a)[k]
                == '.' as u8,
{
    lemma_dec_bytes_canonical(a.ip0 as int);
    lemma_dec_bytes_canonical(a.ip1 as int);
    lemma_dec_bytes_canonical(a.ip2 as int);
    lemma_dec_bytes_canonical(a.ip3 as int);
}

/// The canonical text of the host part alone, as raw bytes.
pub fn ip_to_bytes(a: &Address) -> (r: Vec<u8>)
    ensures
        r@ == ip_bytes(*a),
{
    let mut out: Vec<u8> = Vec::new();
    push_dec(&mut out, a.ip0 as u16);
    out.push('.' as u8);
    push_dec(&mut out, a.ip1 as u16);
    out.push('.' as u8);
    push_dec(&mut out, a.ip2 as u16);
    out.push('.' as u8);
    push_dec(&mut out, a.ip3 as u16);
    proof {
        assert(out@ =~= ip_bytes(*a));
    }
    out
}

/// The canonical text of an address.
pub fn format_address(a: &Address) -> (r: String)
    ensures
        r@ == addr_chars(*a),
{
    let bytes = addr_to_bytes(a);
    crate::text::decode_ascii_lossy(&bytes)
}

} // verus!
