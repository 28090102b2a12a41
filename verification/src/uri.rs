//! Absolute URIs of description documents.
//!
//! A discovery reply advertises where its description document lives.  The
//! library keeps the URI as its parts — scheme, host, optional port, path —
//! so that the logic that rewrites and fetches it is plain byte work.

use vstd::prelude::*;

use crate::addr::{dec_bytes, field_ok, field_val, scan_digits};
use crate::text::{ascii_chars, is_digit};

verus! {

/// An absolute URI, split into its parts.
#[derive(Debug, Clone)]
pub struct DescriptionUri {
    pub scheme: Vec<u8>,
    pub host: Vec<u8>,
    pub port: Option<u16>,
    pub path: Vec<u8>,
}

/// The parts a `DescriptionUri` stands for.
pub struct UriView {
    pub scheme: Seq<u8>,
    pub host: Seq<u8>,
    pub port: Option<u16>,
    pub path: Seq<u8>,
}

impl View for DescriptionUri {
    type V = UriView;

    open spec fn view(&self) -> UriView {
        UriView { scheme: self.scheme@, host: self.host@, port: self.port, path: self.path@ }
    }
}

/// An ASCII letter.
pub open spec fn is_alpha(b: u8) -> bool {
    ('a' as u8 <= b <= 'z' as u8) || ('A' as u8 <= b <= 'Z' as u8)
}

/// A byte allowed inside a URI scheme.
pub open spec fn is_scheme_char(b: u8) -> bool {
    is_alpha(b) || is_digit(b) || b == '+' as u8 || b == '-' as u8 || b == '.' as u8
}

/// End of the run of scheme bytes that starts at `i`.
pub open spec fn scan_scheme(s: Seq<u8>, i: int) -> int
    recommends
        0 <= i <= s.len(),
    decreases s.len() - i,
{
    if 0 <= i < s.len() && is_scheme_char(s[i]) {
        scan_scheme(s, i + 1)
    } else {
        i
    }
}

/// A byte allowed inside a host name: anything but the part separators.
pub open spec fn is_host_char(b: u8) -> bool {
    b != ':' as u8 && b != '/' as u8
}

/// End of the run of host bytes that starts at `i`.
pub open spec fn scan_host(s: Seq<u8>, i: int) -> int
    recommends
        0 <= i <= s.len(),
    decreases s.len() - i,
{
    if 0 <= i < s.len() && is_host_char(s[i]) {
        scan_host(s, i + 1)
    } else {
        i
    }
}

/// The text of a URI: scheme, `://`, host, an optional `:port`, and the
/// path (empty or starting with `/`).
pub open spec fn uri_bytes(u: UriView) -> Seq<u8> {
    u.scheme + seq![':' as u8, '/' as u8, '/' as u8] + u.host + (match u.port {
        Some(p) => seq![':' as u8] + dec_bytes(p as int),
        None => seq![],
    }) + u.path
}

/// The text of a URI, as chars.
pub open spec fn uri_chars(u: UriView) -> Seq<char> {
    ascii_chars(uri_bytes(u))
}

/// What parsing URI text yields: the unique well-formed URI whose text it
/// is, or nothing.
pub open spec fn parse_uri(s: Seq<u8>) -> Option<UriView> {
    let es = scan_scheme(s, 0);
    let h0 = es + 3;
    let eh = scan_host(s, h0);
    if es == 0 || !is_alpha(s[0]) || es + 2 >= s.len() || s[es] != ':' as u8 || s[es + 1]
        != '/' as u8 || s[es + 2] != '/' as u8 || eh == h0 {
        None
    } else if eh == s.len() {
        Some(UriView { scheme: s.subrange(0, es), host: s.subrange(h0, eh), port: None, path: seq![] })
    } else if s[eh] == '/' as u8 {
        Some(
            UriView {
                scheme: s.subrange(0, es),
                host: s.subrange(h0, eh),
                port: None,
                path: s.subrange(eh, s.len() as int),
            },
        )
    } else {
        // s[eh] == ':' — a port follows
        let p0 = eh + 1;
        let ep = scan_digits(s, p0);
        if field_ok(s, p0, 65535) && (ep == s.len() || s[ep] == '/' as u8) {
            Some(
                UriView {
                    scheme: s.subrange(0, es),
                    host: s.subrange(h0, eh),
                    port: Some(field_val(s, p0) as u16),
                    path: s.subrange(ep, s.len() as int),
                },
            )
        } else {
            None
        }
    }
}

proof fn lemma_scan_scheme_bounds(s: Seq<u8>, i: int)
    requires
        0 <= i <= s.len(),
    ensures
        i <= scan_scheme(s, i) <= s.len(),
        forall|k: int| i <= k < scan_scheme(s, i) ==> is_scheme_char(#[trigger] s[k]),
        scan_scheme(s, i) == s.len() || !is_scheme_char(s[scan_scheme(s, i)]),
    decreases s.len() - i,
{
    if i < s.len() && is_scheme_char(s[i]) {
        lemma_scan_scheme_bounds(s, i + 1);
    }
}

proof fn lemma_scan_host_bounds(s: Seq<u8>, i: int)
    requires
        0 <= i <= s.len(),
    ensures
        i <= scan_host(s, i) <= s.len(),
        forall|k: int| i <= k < scan_host(s, i) ==> is_host_char(#[trigger] s[k]),
        scan_host(s, i) == s.len() || !is_host_char(s[scan_host(s, i)]),
    decreases s.len() - i,
{
    if i < s.len() && is_host_char(s[i]) {
        lemma_scan_host_bounds(s, i + 1);
    }
}

/// A well-formed URI: one the renderer and the parser agree on.
pub open spec fn uri_wf(u: UriView) -> bool {
    &&& u.scheme.len() > 0
    &&& is_alpha(u.scheme[0])
    &&& forall|k: int| 0 <= k < u.scheme.len() ==> is_scheme_char(#[trigger] u.scheme[k])
    &&& u.host.len() > 0
    &&& forall|k: int| 0 <= k < u.host.len() ==> is_host_char(#[trigger] u.host[k])
    &&& (u.path.len() == 0 || u.path[0] == '/' as u8)
}

proof fn lemma_scan_scheme_exact(s: Seq<u8>, i: int, j: int)
    requires
        0 <= i <= j <= s.len(),
        forall|k: int| i <= k < j ==> is_scheme_char(#[trigger] s[k]),
        j == s.len() || !is_scheme_char(s[j]),
    ensures
        scan_scheme(s, i) == j,
    decreases j - i,
{
    if i < j {
        lemma_scan_scheme_exact(s, i + 1, j);
    }
}

proof fn lemma_scan_host_exact(s: Seq<u8>, i: int, j: int)
    requires
        0 <= i <= j <= s.len(),
        forall|k: int| i <= k < j ==> is_host_char(#[trigger] s[k]),
        j == s.len() || !is_host_char(s[j]),
    ensures
        scan_host(s, i) == j,
    decreases j - i,
{
    if i < j {
        lemma_scan_host_exact(s, i + 1, j);
    }
}

/// Whatever the parser accepts is well formed.
pub proof fn lemma_parse_uri_wf(s: Seq<u8>, u: UriView)
    requires
        parse_uri(s) == Some(u),
    ensures
        uri_wf(u),
{
    let es = scan_scheme(s, 0);
    let h0 = es + 3;
    let eh = scan_host(s, h0);
    lemma_scan_scheme_bounds(s, 0);
    lemma_scan_host_bounds(s, h0);
    assert(forall|k: int| 0 <= k < es ==> u.scheme[k] == s[k]);
    assert(forall|k: int| 0 <= k < eh - h0 ==> u.host[k] == s[h0 + k]);
    if eh < s.len() && s[eh] != '/' as u8 {
        let p0 = eh + 1;
        let ep = scan_digits(s, p0);
        crate::addr::lemma_scan_digits_bounds(s, p0);
        if ep < s.len() {
            assert(u.path[0] == s[ep]);
        }
    }
}

/// Rendering a well-formed URI and parsing the text gives the URI back.
pub proof fn lemma_uri_roundtrip(u: UriView)
    requires
        uri_wf(u),
    ensures
        parse_uri(uri_bytes(u)) == Some(u),
{
    let s = uri_bytes(u);
    let es = u.scheme.len() as int;
    let h0 = es + 3;
    let eh = h0 + u.host.len();
    assert(s.subrange(0, es) =~= u.scheme);
    assert(s[es] == ':' as u8);
    assert(s[es + 1] == '/' as u8);
    assert(s[es + 2] == '/' as u8);
    assert(s.subrange(h0, eh) =~= u.host);
    assert(!is_scheme_char(':' as u8));
    assert(forall|k: int| 0 <= k < es ==> is_scheme_char(#[trigger] s[k]));
    lemma_scan_scheme_exact(s, 0, es);
    assert(forall|k: int| h0 <= k < eh ==> is_host_char(#[trigger] s[k]));
    match u.port {
        Some(p) => {
            crate::addr::lemma_dec_bytes_canonical(p as int);
            let d = dec_bytes(p as int);
            let p0 = eh + 1;
            let ep = p0 + d.len();
            assert(s[eh] == ':' as u8);
            assert(s.subrange(p0, ep) =~= d);
            assert(s.len() == ep + u.path.len());
            assert(forall|k: int|
                p0 <= k < ep ==> is_digit(#[trigger] s[k]) && s[k] == d[k - p0]);
            if u.path.len() == 0 {
                crate::addr::lemma_field_at(s, p0, p as int, 65535);
                lemma_scan_host_exact(s, h0, eh);
                assert(parse_uri(s) matches Some(v) && v == u) by {
                    assert(s.subrange(ep, s.len() as int) =~= u.path);
                }
            } else {
                assert(s[ep] == u.path[0]);
                crate::addr::lemma_field_at(s, p0, p as int, 65535);
                lemma_scan_host_exact(s, h0, eh);
                assert(parse_uri(s) matches Some(v) && v == u) by {
                    assert(s.subrange(ep, s.len() as int) =~= u.path);
                }
            }
        },
        None => {
            assert(s.len() == eh + u.path.len());
            if u.path.len() == 0 {
                lemma_scan_host_exact(s, h0, eh);
                assert(parse_uri(s) matches Some(v) && v == u) by {
                    assert(s.subrange(0, es) =~= u.scheme);
                    assert(Seq::<u8>::empty() =~= u.path);
                }
            } else {
                assert(s[eh] == u.path[0]);
                lemma_scan_host_exact(s, h0, eh);
                assert(parse_uri(s) matches Some(v) && v == u) by {
                    assert(s.subrange(eh, s.len() as int) =~= u.path);
                }
            }
        },
    }
}

/// Parsing URI text and rendering the result gives the text back.
pub proof fn lemma_parse_uri_sound(s: Seq<u8>, u: UriView)
    requires
        parse_uri(s) == Some(u),
    ensures
        uri_bytes(u) == s,
{
    let es = scan_scheme(s, 0);
    let h0 = es + 3;
    let eh = scan_host(s, h0);
    lemma_scan_scheme_bounds(s, 0);
    lemma_scan_host_bounds(s, h0);
    if eh == s.len() {
        assert(uri_bytes(u) =~= s);
    } else if s[eh] == '/' as u8 {
        assert(uri_bytes(u) =~= s);
    } else {
        let p0 = eh + 1;
        let ep = scan_digits(s, p0);
        crate::addr::lemma_scan_digits_bounds(s, p0);
        crate::addr::lemma_canonical_dec_bytes(s.subrange(p0, ep));
        assert(dec_bytes(u.port.unwrap() as int) == s.subrange(p0, ep));
        assert(uri_bytes(u) =~= s);
    }
}

fn scan_scheme_exec(s: &Vec<u8>, i: usize) -> (e: usize)
    requires
        i <= s@.len(),
    ensures
        e as int == scan_scheme(s@, i as int),
        i <= e <= s@.len(),
{
    let mut j = i;
    while j < s.len() && (('a' as u8 <= s[j] && s[j] <= 'z' as u8) || ('A' as u8 <= s[j] && s[j]
        <= 'Z' as u8) || ('0' as u8 <= s[j] && s[j] <= '9' as u8) || s[j] == '+' as u8 || s[j]
        == '-' as u8 || s[j] == '.' as u8)
        invariant
            i <= j <= s@.len(),
            scan_scheme(s@, i as int) == scan_scheme(s@, j as int),
        decreases s@.len() - j,
    {
        j += 1;
    }
    j
}

fn scan_host_exec(s: &Vec<u8>, i: usize) -> (e: usize)
    requires
        i <= s@.len(),
    ensures
        e as int == scan_host(s@, i as int),
        i <= e <= s@.len(),
{
    let mut j = i;
    while j < s.len() && s[j] != ':' as u8 && s[j] != '/' as u8
        invariant
            i <= j <= s@.len(),
            scan_host(s@, i as int) == scan_host(s@, j as int),
        decreases s@.len() - j,
    {
        j += 1;
    }
    j
}

/// Parse URI text given as raw bytes.
pub fn parse_uri_bytes(s: &Vec<u8>) -> (r: Option<DescriptionUri>)
    ensures
        match r {
            Some(u) => parse_uri(s@) == Some(u@),
            None => parse_uri(s@) is None,
        },
{
    let es = scan_scheme_exec(s, 0);
    if es == 0 || es >= s.len() || s.len() - es <= 2 {
        return None;
    }
    let first = s[0];
    if !(('a' as u8 <= first && first <= 'z' as u8) || ('A' as u8 <= first && first
        <= 'Z' as u8)) {
        return None;
    }
    if s[es] != ':' as u8 || s[es + 1] != '/' as u8 || s[es + 2] != '/' as u8 {
        return None;
    }
    let h0 = es + 3;
    let eh = scan_host_exec(s, h0);
    if eh == h0 {
        return None;
    }
    let scheme = crate::response::copy_range(s, 0, es);
    let host = crate::response::copy_range(s, h0, eh);
    if eh == s.len() {
        return Some(DescriptionUri { scheme, host, port: None, path: Vec::new() });
    }
    if s[eh] == '/' as u8 {
        let path = crate::response::copy_range(s, eh, s.len());
        return Some(DescriptionUri { scheme, host, port: None, path });
    }
    let p0 = eh + 1;
    let pr = match crate::addr::parse_field(s, p0, 65535) {
        Some(p) => p,
        None => {
            return None;
        },
    };
    let (pv, ep) = pr;
    if !(ep == s.len() || s[ep] == '/' as u8) {
        return None;
    }
    let path = crate::response::copy_range(s, ep, s.len());
    Some(DescriptionUri { scheme, host, port: Some(pv as u16), path })
}

impl DescriptionUri {
    /// The URI's text, as raw bytes.
    pub fn to_bytes(&self) -> (r: Vec<u8>)
        ensures
            r@ == uri_bytes(self@),
    {
        let mut out: Vec<u8> = Vec::new();
        let mut i: usize = 0;
        while i < self.scheme.len()
            invariant
                i <= self.scheme@.len(),
                out@ =~= self.scheme@.subrange(0, i as int),
            decreases self.scheme@.len() - i,
        {
            out.push(self.scheme[i]);
            proof {
                assert(out@ =~= self.scheme@.subrange(0, i + 1));
            }
            i += 1;
        }
        proof {
            assert(out@ =~= self.scheme@);
        }
        out.push(':' as u8);
        out.push('/' as u8);
        out.push('/' as u8);
        let mut j: usize = 0;
        let ghost head = out@;
        while j < self.host.len()
            invariant
                j <= self.host@.len(),
                out@ =~= head + self.host@.subrange(0, j as int),
            decreases self.host@.len() - j,
        {
            out.push(self.host[j]);
            proof {
                assert(out@ =~= head + self.host@.subrange(0, j + 1));
            }
            j += 1;
        }
        match self.port {
            Some(p) => {
                out.push(':' as u8);
                crate::addr::push_dec(&mut out, p);
            },
            None => {},
        }
        let mut k: usize = 0;
        let ghost head2 = out@;
        while k < self.path.len()
            invariant
                k <= self.path@.len(),
                out@ =~= head2 + self.path@.subrange(0, k as int),
            decreases self.path@.len() - k,
        {
            out.push(self.path[k]);
            proof {
                assert(out@ =~= head2 + self.path@.subrange(0, k + 1));
            }
            k += 1;
        }
        proof {
            assert(self.host@.subrange(0, self.host@.len() as int) =~= self.host@);
            assert(self.path@.subrange(0, self.path@.len() as int) =~= self.path@);
            assert(out@ =~= uri_bytes(self@));
        }
        out
    }

    /// The URI's text, read as ASCII.
    pub fn to_text(&self) -> (r: String)
        ensures
            r@ == uri_chars(self@),
    {
        let bytes = self.to_bytes();
        crate::text::decode_ascii_lossy(&bytes)
    }
}

} // verus!
