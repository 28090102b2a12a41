//! Header-only HTTP-style response parsing.
//!
//! A discovery reply is an ASCII status line followed by header lines,
//! closed by an empty line; there is no body.  The grammar is given by the
//! spec functions here; the executable parser is proved to follow them.

use vstd::prelude::*;

use crate::errors::{Error, ErrorType};

verus! {

pub const CR: u8 = 13;

pub const LF: u8 = 10;

/// Start of the `CRLF` that ends the line beginning at `i`, or the length
/// of the buffer when no line terminator follows.
pub open spec fn line_end(s: Seq<u8>, i: int) -> int
    recommends
        0 <= i <= s.len(),
    decreases s.len() - i,
{
    if i + 1 < s.len() {
        if s[i] == CR && s[i + 1] == LF {
            i
        } else {
            line_end(s, i + 1)
        }
    } else {
        s.len() as int
    }
}

/// First position of `b` at or after `i`, or the length of the buffer.
pub open spec fn find_byte(s: Seq<u8>, i: int, b: u8) -> int
    recommends
        0 <= i <= s.len(),
    decreases s.len() - i,
{
    if i < s.len() {
        if s[i] == b {
            i
        } else {
            find_byte(s, i + 1, b)
        }
    } else {
        s.len() as int
    }
}

/// Optional whitespace allowed around a header value.
pub open spec fn is_ows(b: u8) -> bool {
    b == ' ' as u8 || b == '\t' as u8
}

/// The value with leading whitespace dropped.
pub open spec fn trim_start(s: Seq<u8>) -> Seq<u8>
    decreases s.len(),
{
    if s.len() > 0 && is_ows(s[0]) {
        trim_start(s.drop_first())
    } else {
        s
    }
}

/// The value with trailing whitespace dropped.
pub open spec fn trim_end(s: Seq<u8>) -> Seq<u8>
    decreases s.len(),
{
    if s.len() > 0 && is_ows(s.last()) {
        trim_end(s.drop_last())
    } else {
        s
    }
}

/// The value with surrounding whitespace dropped.
pub open spec fn trim(s: Seq<u8>) -> Seq<u8> {
    trim_end(trim_start(s))
}

/// How reading a header block can end.
pub enum HeaderParse {
    /// The parsed name/value pairs, and the index just past the empty line
    /// that closed the block.
    Done { headers: Seq<(Seq<u8>, Seq<u8>)>, end: int },
    /// The buffer ran out before the empty line.
    Incomplete,
    /// A nonempty line without a colon, or with an empty name.
    Malformed,
}

/// Read header lines from `i` until the empty line that closes the block.
pub open spec fn parse_headers(s: Seq<u8>, i: int) -> HeaderParse
    recommends
        0 <= i <= s.len(),
    decreases s.len() - i,
    when 0 <= i <= s.len()
    via parse_headers_decreases
{
    let e = line_end(s, i);
    if e >= s.len() {
        HeaderParse::Incomplete
    } else if e == i {
        HeaderParse::Done { headers: seq![], end: i + 2 }
    } else {
        let line = s.subrange(i, e);
        let c = find_byte(line, 0, ':' as u8);
        if c == 0 || c >= line.len() {
            HeaderParse::Malformed
        } else {
            let name = line.subrange(0, c);
            let value = trim(line.subrange(c + 1, line.len() as int));
            match parse_headers(s, e + 2) {
                HeaderParse::Done { headers, end } => HeaderParse::Done {
                    headers: seq![(name, value)] + headers,
                    end,
                },
                HeaderParse::Incomplete => HeaderParse::Incomplete,
                HeaderParse::Malformed => HeaderParse::Malformed,
            }
        }
    }
}

#[via_fn]
proof fn parse_headers_decreases(s: Seq<u8>, i: int) {
    lemma_line_end_bounds(s, i);
}

/// A plausible status line: `HTTP/` + one-digit version dot one-digit
/// version, a space, a three-digit status code, and an optional reason.
pub open spec fn status_line_ok(line: Seq<u8>) -> bool {
    line.len() >= 12 && line[0] == 'H' as u8 && line[1] == 'T' as u8 && line[2] == 'T' as u8
        && line[3] == 'P' as u8 && line[4] == '/' as u8 && crate::text::is_digit(line[5])
        && line[6] == '.' as u8 && crate::text::is_digit(line[7]) && line[8] == ' ' as u8
        && crate::text::is_digit(line[9]) && crate::text::is_digit(line[10])
        && crate::text::is_digit(line[11]) && (line.len() == 12 || line[12] == ' ' as u8)
}

/// How reading a whole header-only response can end.
pub enum ResponseParse {
    /// The headers, and the index just past the blank line: where a body
    /// would start.
    Done { headers: Seq<(Seq<u8>, Seq<u8>)>, end: int },
    /// The buffer ended before the blank line that closes the headers.
    Incomplete,
    /// The status line or a header line did not follow the grammar.
    Malformed,
}

/// Read a status line and its header block.
pub open spec fn parse_response(s: Seq<u8>) -> ResponseParse {
    let e = line_end(s, 0);
    if e >= s.len() {
        ResponseParse::Incomplete
    } else if !status_line_ok(s.subrange(0, e)) {
        ResponseParse::Malformed
    } else {
        match parse_headers(s, e + 2) {
            HeaderParse::Done { headers, end } => ResponseParse::Done { headers, end },
            HeaderParse::Incomplete => ResponseParse::Incomplete,
            HeaderParse::Malformed => ResponseParse::Malformed,
        }
    }
}

/// A byte with any upper-case letter folded to lower case.
pub open spec fn lower(b: u8) -> u8 {
    if 'A' as u8 <= b <= 'Z' as u8 {
        (b + 32) as u8
    } else {
        b
    }
}

/// Case-insensitive equality of header names.
pub open spec fn eq_ci(x: Seq<u8>, y: Seq<u8>) -> bool {
    x.len() == y.len() && (forall|k: int| 0 <= k < x.len() ==> lower(x[k]) == lower(#[trigger] y[k]))
}

/// The value of the first header whose name matches, ignoring case.
pub open spec fn header_lookup(hs: Seq<(Seq<u8>, Seq<u8>)>, name: Seq<u8>) -> Option<Seq<u8>>
    decreases hs.len(),
{
    if hs.len() == 0 {
        None
    } else if eq_ci(hs[0].0, name) {
        Some(hs[0].1)
    } else {
        header_lookup(hs.drop_first(), name)
    }
}

/// The names/values an executable header list stands for.
pub open spec fn headers_view(v: Seq<(Vec<u8>, Vec<u8>)>) -> Seq<(Seq<u8>, Seq<u8>)> {
    v.map_values(|p: (Vec<u8>, Vec<u8>)| (p.0@, p.1@))
}

proof fn lemma_line_end_bounds(s: Seq<u8>, i: int)
    requires
        0 <= i <= s.len(),
    ensures
        i <= line_end(s, i) <= s.len(),
        line_end(s, i) < s.len() ==> line_end(s, i) + 2 <= s.len() && s[line_end(s, i)] == CR && s[
            line_end(s, i) + 1
        ] == LF,
    decreases s.len() - i,
{
    if i + 1 < s.len() && !(s[i] == CR && s[i + 1] == LF) {
        lemma_line_end_bounds(s, i + 1);
    }
}

pub(crate) fn line_end_exec(s: &Vec<u8>, i: usize) -> (e: usize)
    requires
        i <= s@.len(),
    ensures
        e as int == line_end(s@, i as int),
        i <= e <= s@.len(),
        e < s@.len() ==> e + 2 <= s@.len() && s@[e as int] == CR && s@[e + 1] == LF,
{
    proof {
        lemma_line_end_bounds(s@, i as int);
    }
    let mut j = i;
    while j < s.len() && !(s[j] == CR && j + 1 < s.len() && s[j + 1] == LF)
        invariant
            i <= j <= s@.len(),
            line_end(s@, i as int) == line_end(s@, j as int),
        decreases s@.len() - j,
    {
        j += 1;
    }
    j
}

pub(crate) fn find_byte_exec(s: &Vec<u8>, i: usize, b: u8) -> (e: usize)
    requires
        i <= s@.len(),
    ensures
        e as int == find_byte(s@, i as int, b),
        i <= e <= s@.len(),
        e < s@.len() ==> s@[e as int] == b,
        forall|k: int| i <= k < e ==> s@[k] != b,
{
    proof {
        lemma_find_byte_bounds(s@, i as int, b);
    }
    let mut j = i;
    while j < s.len() && s[j] != b
        invariant
            i <= j <= s@.len(),
            find_byte(s@, i as int, b) == find_byte(s@, j as int, b),
        decreases s@.len() - j,
    {
        j += 1;
    }
    j
}

proof fn lemma_find_byte_bounds(s: Seq<u8>, i: int, b: u8)
    requires
        0 <= i <= s.len(),
    ensures
        i <= find_byte(s, i, b) <= s.len(),
        find_byte(s, i, b) < s.len() ==> s[find_byte(s, i, b)] == b,
        forall|k: int| i <= k < find_byte(s, i, b) ==> s[k] != b,
    decreases s.len() - i,
{
    if i < s.len() && s[i] != b {
        lemma_find_byte_bounds(s, i + 1, b);
    }
}

/// Copy `s[lo..hi)` into a fresh vector.
pub fn copy_range(s: &Vec<u8>, lo: usize, hi: usize) -> (r: Vec<u8>)
    requires
        lo <= hi <= s@.len(),
    ensures
        r@ == s@.subrange(lo as int, hi as int),
{
    let mut out: Vec<u8> = Vec::new();
    let mut i = lo;
    while i < hi
        invariant
            lo <= i <= hi <= s@.len(),
            out@ =~= s@.subrange(lo as int, i as int),
        decreases hi - i,
    {
        out.push(s[i]);
        proof {
            assert(out@ =~= s@.subrange(lo as int, i + 1));
        }
        i += 1;
    }
    out
}

/// Drop surrounding whitespace from a value.
fn trim_exec(s: Vec<u8>) -> (r: Vec<u8>)
    ensures
        r@ == trim(s@),
{
    proof {
        assert(s@.subrange(0, s@.len() as int) =~= s@);
    }
    let mut lo: usize = 0;
    while lo < s.len() && (s[lo] == ' ' as u8 || s[lo] == '\t' as u8)
        invariant
            lo <= s@.len(),
            trim_start(s@) == trim_start(s@.subrange(lo as int, s@.len() as int)),
        decreases s@.len() - lo,
    {
        proof {
            let cur = s@.subrange(lo as int, s@.len() as int);
            assert(cur.drop_first() =~= s@.subrange(lo + 1, s@.len() as int));
        }
        lo += 1;
    }
    proof {
        let cur = s@.subrange(lo as int, s@.len() as int);
        assert(trim_start(s@) == cur);
    }
    let mut hi: usize = s.len();
    while hi > lo && (s[hi - 1] == ' ' as u8 || s[hi - 1] == '\t' as u8)
        invariant
            lo <= hi <= s@.len(),
            trim_end(s@.subrange(lo as int, s@.len() as int)) == trim_end(
                s@.subrange(lo as int, hi as int),
            ),
        decreases hi,
    {
        proof {
            let cur = s@.subrange(lo as int, hi as int);
            assert(cur.drop_last() =~= s@.subrange(lo as int, hi - 1));
        }
        hi -= 1;
    }
    proof {
        let cur = s@.subrange(lo as int, hi as int);
        assert(trim_end(cur) == cur);
    }
    copy_range(&s, lo, hi)
}

/// How reading a header block ended, in executable form.
pub enum HeaderBlock {
    /// The name/value pairs, and the index just past the closing empty
    /// line.
    Complete(Vec<(Vec<u8>, Vec<u8>)>, usize),
    Incomplete,
    Malformed,
}

/// `p` with `pre` put before its headers, when it carries any.
pub open spec fn prepend_headers(pre: Seq<(Seq<u8>, Seq<u8>)>, p: HeaderParse) -> HeaderParse {
    match p {
        HeaderParse::Done { headers, end } => HeaderParse::Done { headers: pre + headers, end },
        HeaderParse::Incomplete => HeaderParse::Incomplete,
        HeaderParse::Malformed => HeaderParse::Malformed,
    }
}

/// Read the header block that starts at `i`.
pub fn parse_headers_exec(s: &Vec<u8>, i: usize) -> (r: HeaderBlock)
    requires
        i <= s@.len(),
    ensures
        match r {
            HeaderBlock::Complete(hs, end) => parse_headers(s@, i as int) == (HeaderParse::Done {
                headers: headers_view(hs@),
                end: end as int,
            }) && end <= s@.len(),
            HeaderBlock::Incomplete => parse_headers(s@, i as int) is Incomplete,
            HeaderBlock::Malformed => parse_headers(s@, i as int) is Malformed,
        },
{
    let mut acc: Vec<(Vec<u8>, Vec<u8>)> = Vec::new();
    let mut j = i;
    loop
        invariant
            i <= j <= s@.len(),
            parse_headers(s@, i as int) == prepend_headers(
                headers_view(acc@),
                parse_headers(s@, j as int),
            ),
        decreases s@.len() - j,
    {
        let e = line_end_exec(s, j);
        if e >= s.len() {
            return HeaderBlock::Incomplete;
        }
        if e == j {
            proof {
                assert(headers_view(acc@) + seq![] =~= headers_view(acc@));
            }
            return HeaderBlock::Complete(acc, j + 2);
        }
        let line = copy_range(s, j, e);
        let c = find_byte_exec(&line, 0, ':' as u8);
        if c == 0 || c >= line.len() {
            return HeaderBlock::Malformed;
        }
        let name = copy_range(&line, 0, c);
        let raw_value = copy_range(&line, c + 1, line.len());
        let value = trim_exec(raw_value);
        proof {
            assert(line@.subrange(c + 1, line@.len() as int) == raw_value@);
        }
        let ghost prev_acc = acc@;
        acc.push((name, value));
        proof {
            let hd = (line@.subrange(0, c as int), trim(
                line@.subrange(c + 1, line@.len() as int),
            ));
            assert(headers_view(acc@) =~= headers_view(prev_acc) + seq![hd]);
            assert(forall|rest: Seq<(Seq<u8>, Seq<u8>)>|
                (headers_view(prev_acc) + seq![hd]) + rest =~= headers_view(prev_acc) + (
                seq![hd] + rest));
        }
        j = e + 2;
    }
}

/// The name of the optional identity header.
pub open spec fn usn_name() -> Seq<u8> {
    seq!['U' as u8, 'S' as u8, 'N' as u8]
}

/// The name of the required location header.
pub open spec fn location_name() -> Seq<u8> {
    seq![
        'L' as u8,
        'O' as u8,
        'C' as u8,
        'A' as u8,
        'T' as u8,
        'I' as u8,
        'O' as u8,
        'N' as u8,
    ]
}

fn usn_name_vec() -> (r: Vec<u8>)
    ensures
        r@ == usn_name(),
{
    let mut v: Vec<u8> = Vec::new();
    v.push('U' as u8);
    v.push('S' as u8);
    v.push('N' as u8);
    proof {
        assert(v@ =~= usn_name());
    }
    v
}

fn location_name_vec() -> (r: Vec<u8>)
    ensures
        r@ == location_name(),
{
    let mut v: Vec<u8> = Vec::new();
    v.push('L' as u8);
    v.push('O' as u8);
    v.push('C' as u8);
    v.push('A' as u8);
    v.push('T' as u8);
    v.push('I' as u8);
    v.push('O' as u8);
    v.push('N' as u8);
    proof {
        assert(v@ =~= location_name());
    }
    v
}

fn eq_ci_exec(a: &Vec<u8>, b: &Vec<u8>) -> (r: bool)
    ensures
        r == eq_ci(a@, b@),
{
    if a.len() != b.len() {
        return false;
    }
    let mut i: usize = 0;
    while i < a.len()
        invariant
            i <= a@.len(),
            a@.len() == b@.len(),
            forall|k: int| 0 <= k < i ==> lower(a@[k]) == lower(#[trigger] b@[k]),
        decreases a@.len() - i,
    {
        let x = a[i];
        let y = b[i];
        let lx = if 'A' as u8 <= x && x <= 'Z' as u8 {
            x + 32
        } else {
            x
        };
        let ly = if 'A' as u8 <= y && y <= 'Z' as u8 {
            y + 32
        } else {
            y
        };
        if lx != ly {
            proof {
                assert(lower(a@[i as int]) != lower(b@[i as int]));
            }
            return false;
        }
        i += 1;
    }
    true
}

/// Find the first header of the given name, ignoring case, and hand its
/// value out as a copy.
pub(crate) fn header_lookup_exec(hs: &Vec<(Vec<u8>, Vec<u8>)>, name: &Vec<u8>) -> (r: Option<Vec<u8>>)
    ensures
        match r {
            Some(v) => header_lookup(headers_view(hs@), name@) == Some(v@),
            None => header_lookup(headers_view(hs@), name@) is None,
        },
{
    proof {
        assert(headers_view(hs@).skip(0) =~= headers_view(hs@));
    }
    let mut i: usize = 0;
    while i < hs.len()
        invariant
            i <= hs@.len(),
            header_lookup(headers_view(hs@), name@) == header_lookup(
                headers_view(hs@).skip(i as int),
                name@,
            ),
        decreases hs@.len() - i,
    {
        proof {
            assert(headers_view(hs@).skip(i as int).drop_first() =~= headers_view(hs@).skip(
                i + 1,
            ));
            assert(headers_view(hs@).skip(i as int)[0] == headers_view(hs@)[i as int]);
        }
        if eq_ci_exec(&hs[i].0, name) {
            let v = copy_range(&hs[i].1, 0, hs[i].1.len());
            proof {
                assert(v@ =~= hs@[i as int].1@);
            }
            return Some(v);
        }
        i += 1;
    }
    None
}

pub(crate) fn check_status_line(s: &Vec<u8>, e: usize) -> (r: bool)
    requires
        e <= s@.len(),
    ensures
        r == status_line_ok(s@.subrange(0, e as int)),
{
    let ghost line = s@.subrange(0, e as int);
    proof {
        assert(forall|k: int| 0 <= k < e ==> line[k] == s@[k]);
    }
    if e < 12 {
        return false;
    }
    let r = s[0] == 'H' as u8 && s[1] == 'T' as u8 && s[2] == 'T' as u8 && s[3] == 'P' as u8
        && s[4] == '/' as u8 && ('0' as u8 <= s[5] && s[5] <= '9' as u8) && s[6] == '.' as u8 && (
    '0' as u8 <= s[7] && s[7] <= '9' as u8) && s[8] == ' ' as u8 && ('0' as u8 <= s[9] && s[9]
        <= '9' as u8) && ('0' as u8 <= s[10] && s[10] <= '9' as u8) && ('0' as u8 <= s[11] && s[11]
        <= '9' as u8) && (e == 12 || s[12] == ' ' as u8);
    r
}

/// One received datagram: its buffer, how many bytes of it arrived, and
/// who sent it.
#[derive(Debug, Clone)]
pub struct RawDiscoveryResponse {
    pub buffer: Vec<u8>,
    pub size: usize,
    pub sender_addr: crate::addr::Address,
}

impl RawDiscoveryResponse {
    /// The byte count does not exceed the buffer.
    pub open spec fn wf(&self) -> bool {
        self.size <= self.buffer@.len()
    }

    /// The bytes that actually arrived.
    pub open spec fn payload(&self) -> Seq<u8> {
        self.buffer@.subrange(0, self.size as int)
    }
}

/// A parsed discovery reply: the replying device's identity and where its
/// description document lives.
#[derive(Debug, Clone)]
pub struct DiscoveryResponse {
    pub description_location: crate::uri::DescriptionUri,
    pub usn: String,
}

/// What a `DiscoveryResponse` stands for.
pub struct ResponseView {
    pub description_location: crate::uri::UriView,
    pub usn: Seq<char>,
}

impl View for DiscoveryResponse {
    type V = ResponseView;

    open spec fn view(&self) -> ResponseView {
        ResponseView {
            description_location: self.description_location@,
            usn: self.usn@,
        }
    }
}

/// What a reply payload amounts to.
pub enum ReplySpec {
    /// The buffer ended before the header block was closed.
    Incomplete,
    /// The status line or a header line was not well formed.
    Malformed,
    /// The header block carried no `LOCATION` header.
    NoLocation,
    /// The advertised location was not a usable absolute URI.
    BadLocation,
    /// A usable reply.
    Reply { usn: Seq<u8>, location: crate::uri::UriView },
}

/// Read a reply payload: parse the header block, take `USN` (empty when
/// absent) and the required `LOCATION`, and parse the location as a URI.
pub open spec fn reply_spec(payload: Seq<u8>) -> ReplySpec {
    match parse_response(payload) {
        ResponseParse::Incomplete => ReplySpec::Incomplete,
        ResponseParse::Malformed => ReplySpec::Malformed,
        ResponseParse::Done { headers, end } => match header_lookup(headers, location_name()) {
            None => ReplySpec::NoLocation,
            Some(loc) => match crate::uri::parse_uri(loc) {
                None => ReplySpec::BadLocation,
                Some(u) => ReplySpec::Reply {
                    usn: match header_lookup(headers, usn_name()) {
                        Some(v) => v,
                        None => seq![],
                    },
                    location: u,
                },
            },
        },
    }
}

/// The identity a usable reply carries.
pub open spec fn reply_usn(r: ReplySpec) -> Seq<u8> {
    match r {
        ReplySpec::Reply { usn, location } => usn,
        _ => seq![],
    }
}

/// The location a usable reply carries.
pub open spec fn reply_location(r: ReplySpec) -> crate::uri::UriView {
    match r {
        ReplySpec::Reply { usn, location } => location,
        _ => arbitrary(),
    }
}

/// The advertised location with its host replaced by the address the
/// reply came from; scheme and path are kept, the advertised port is
/// dropped with the rest of the authority.
pub open spec fn with_source_host(u: crate::uri::UriView, a: crate::addr::Address)
    -> crate::uri::UriView {
    crate::uri::UriView {
        scheme: u.scheme,
        host: crate::addr::ip_bytes(a),
        port: None,
        path: u.path,
    }
}

/// The location a reply resolves to under the source-preference flag.
pub open spec fn resolved_location(
    prefer_source_addr: bool,
    payload: Seq<u8>,
    sender: crate::addr::Address,
) -> crate::uri::UriView {
    if prefer_source_addr {
        with_source_host(reply_location(reply_spec(payload)), sender)
    } else {
        reply_location(reply_spec(payload))
    }
}

/// The location of every usable reply is a well-formed URI, with or
/// without the source-preference rewrite: the record handed on is always
/// structurally complete.
pub proof fn lemma_resolved_location_wf(
    prefer: bool,
    payload: Seq<u8>,
    sender: crate::addr::Address,
)
    requires
        reply_spec(payload) is Reply,
    ensures
        crate::uri::uri_wf(resolved_location(prefer, payload, sender)),
{
    match parse_response(payload) {
        ResponseParse::Done { headers, end } => {
            match header_lookup(headers, location_name()) {
                Some(loc) => {
                    crate::uri::lemma_parse_uri_wf(loc, reply_location(reply_spec(payload)));
                },
                None => {
                    assert(false);
                },
            }
        },
        _ => {
            assert(false);
        },
    }
    if prefer {
        crate::addr::lemma_ip_bytes_chars(sender);
        let host = crate::addr::ip_bytes(sender);
        assert(forall|k: int|
            0 <= k < host.len() ==> crate::uri::is_host_char(#[trigger] host[k]));
    }
}

/// Rewrite a parsed reply's location host to the reply's actual source.
pub fn replace_source(new_source: &crate::addr::Address, response: DiscoveryResponse) -> (r:
    DiscoveryResponse)
    ensures
        r.usn == response.usn,
        r.description_location@ == with_source_host(response.description_location@, *new_source),
{
    let host = crate::addr::ip_to_bytes(new_source);
    DiscoveryResponse {
        description_location: crate::uri::DescriptionUri {
            scheme: response.description_location.scheme,
            host,
            port: None,
            path: response.description_location.path,
        },
        usn: response.usn,
    }
}

/// Parse one received datagram into a discovery reply.  Success is owed
/// exactly when the payload reads as a usable reply; every failure names
/// which condition was hit.
pub fn parse_discovery_response(prefer_source_addr: bool, raw: &RawDiscoveryResponse) -> (r: Result<
    DiscoveryResponse,
    Error,
>)
    requires
        raw.wf(),
    ensures
        match r {
            Ok(resp) => reply_spec(raw.payload()) is Reply && resp.usn@ == crate::text::ascii_chars(
                reply_usn(reply_spec(raw.payload())),
            ) && resp.description_location@ == resolved_location(
                prefer_source_addr,
                raw.payload(),
                raw.sender_addr,
            ),
            Err(e) => match reply_spec(raw.payload()) {
                ReplySpec::Incomplete => e.error_type == ErrorType::IncompleteDiscoveryResponse,
                ReplySpec::Malformed => e.error_type == ErrorType::CouldNotParseDiscoveryResponse,
                ReplySpec::NoLocation => e.error_type == ErrorType::MissingLocationHeader,
                ReplySpec::BadLocation => e.error_type == ErrorType::InvalidDescriptionLocation,
                ReplySpec::Reply { .. } => false,
            },
        },
{
    let payload = copy_range(&raw.buffer, 0, raw.size);
    let e0 = line_end_exec(&payload, 0);
    if e0 >= payload.len() {
        return Err(
            Error::new(
                ErrorType::IncompleteDiscoveryResponse,
                "Received incomplete discovery response",
            ),
        );
    }
    if !check_status_line(&payload, e0) {
        return Err(
            Error::new(ErrorType::CouldNotParseDiscoveryResponse, "Could not parse status line"),
        );
    }
    let block = parse_headers_exec(&payload, e0 + 2);
    let hs = match block {
        HeaderBlock::Complete(hs, _end) => hs,
        HeaderBlock::Incomplete => {
            return Err(
                Error::new(
                    ErrorType::IncompleteDiscoveryResponse,
                    "Received incomplete discovery response",
                ),
            );
        },
        HeaderBlock::Malformed => {
            return Err(
                Error::new(
                    ErrorType::CouldNotParseDiscoveryResponse,
                    "Could not parse discovery response headers",
                ),
            );
        },
    };
    let loc_name = location_name_vec();
    let loc = match header_lookup_exec(&hs, &loc_name) {
        Some(v) => v,
        None => {
            return Err(
                Error::new(
                    ErrorType::MissingLocationHeader,
                    "Discovery response carries no location header",
                ),
            );
        },
    };
    let location = match crate::uri::parse_uri_bytes(&loc) {
        Some(u) => u,
        None => {
            return Err(
                Error::new(
                    ErrorType::InvalidDescriptionLocation,
                    "Advertised description location is not a usable URI",
                ),
            );
        },
    };
    let usn_n = usn_name_vec();
    let usn_bytes = match header_lookup_exec(&hs, &usn_n) {
        Some(v) => v,
        None => Vec::new(),
    };
    let usn = crate::text::decode_ascii_lossy(&usn_bytes);
    proof {
        assert(usn_bytes@ =~= reply_usn(reply_spec(raw.payload())));
    }
    let resp = DiscoveryResponse { description_location: location, usn };
    if prefer_source_addr {
        Ok(replace_source(&raw.sender_addr, resp))
    } else {
        Ok(resp)
    }
}

} // verus!
