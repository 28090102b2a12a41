//! The multicast search request.
//!
//! The request is a fixed line-oriented ASCII header block; field order,
//! token spelling and the CRLF line ends are part of the wire contract.

use vstd::prelude::*;
use vstd::string::StringSliceAdditionalSpecFns;
use vstd::utf8::encode_utf8;
use vstd::utf8::is_ascii_chars;
use vstd::utf8::is_ascii_chars_encode_utf8;

use crate::addr::{addr_bytes, addr_to_bytes, Address};
use crate::response::{CR, LF};
use crate::text::{push_all, push_str_bytes};

verus! {

/// The two bytes that end every request line.
pub open spec fn crlf() -> Seq<u8> {
    seq![CR, LF]
}

/// The method line: `M-SEARCH` addressed to `*`.
pub open spec fn request_line() -> Seq<u8> {
    encode_utf8("M-SEARCH * HTTP/1.1\r\n"@)
}

/// The `HOST` header line, carrying the multicast target address.
pub open spec fn host_line(a: Address) -> Seq<u8> {
    encode_utf8("HOST: "@) + addr_bytes(a) + crlf()
}

/// The `MAN` header line, carrying the discovery-method token.
pub open spec fn man_line() -> Seq<u8> {
    encode_utf8("MAN: ssdp:discover\r\n"@)
}

/// The `MX` header line: the short response-window hint.
pub open spec fn mx_line() -> Seq<u8> {
    encode_utf8("MX: 2\r\n"@)
}

/// The `ST` header line: the service type searched for.
pub open spec fn st_line() -> Seq<u8> {
    encode_utf8("ST: urn:ses-com:device:SatIPServer:1\r\n"@)
}

/// The `USER-AGENT` header line, carrying the client identifier.
pub open spec fn user_agent_line(ua: Seq<char>) -> Seq<u8> {
    encode_utf8("USER-AGENT: "@) + encode_utf8(ua) + crlf()
}

/// The whole search request: the method line, the five header lines in
/// their fixed order, and the empty line that closes the block.
pub open spec fn search_request_bytes(a: Address, ua: Seq<char>) -> Seq<u8> {
    request_line() + host_line(a) + man_line() + mx_line() + st_line() + user_agent_line(ua)
        + crlf()
}

/// Render the search request for the given target and client identifier.
pub fn search_servers_request(target_address: &Address, user_agent: &str) -> (r: Vec<u8>)
    ensures
        r@ == search_request_bytes(*target_address, user_agent@),
{
    let mut out: Vec<u8> = Vec::new();
    push_str_bytes(&mut out, "M-SEARCH * HTTP/1.1\r\n");
    push_str_bytes(&mut out, "HOST: ");
    let ab = addr_to_bytes(target_address);
    push_all(&mut out, &ab);
    out.push(CR);
    out.push(LF);
    push_str_bytes(&mut out, "MAN: ssdp:discover\r\n");
    push_str_bytes(&mut out, "MX: 2\r\n");
    push_str_bytes(&mut out, "ST: urn:ses-com:device:SatIPServer:1\r\n");
    push_str_bytes(&mut out, "USER-AGENT: ");
    push_str_bytes(&mut out, user_agent);
    out.push(CR);
    out.push(LF);
    out.push(CR);
    out.push(LF);
    proof {
        assert(out@ =~= search_request_bytes(*target_address, user_agent@));
    }
    out
}

/// The rendered request carries the `HOST`, `MAN`, `MX`, `ST` and
/// `USER-AGENT` lines in that order, and ends with the empty line.
pub proof fn lemma_search_request_structure(a: Address, ua: Seq<char>)
    ensures
        ({
            let s = search_request_bytes(a, ua);
            let i1 = request_line().len() as int;
            let i2 = i1 + host_line(a).len();
            let i3 = i2 + man_line().len();
            let i4 = i3 + mx_line().len();
            let i5 = i4 + st_line().len();
            let i6 = i5 + user_agent_line(ua).len();
            &&& s.len() == i6 + 2
            &&& 0 < i1 < i2 < i3 < i4 < i5 < i6
            &&& s.subrange(i1, i2) == host_line(a)
            &&& s.subrange(i2, i3) == man_line()
            &&& s.subrange(i3, i4) == mx_line()
            &&& s.subrange(i4, i5) == st_line()
            &&& s.subrange(i5, i6) == user_agent_line(ua)
            &&& s.subrange(i6, i6 + 2) == crlf()
        }),
{
    reveal_strlit("M-SEARCH * HTTP/1.1\r\n");
    reveal_strlit("MAN: ssdp:discover\r\n");
    reveal_strlit("MX: 2\r\n");
    reveal_strlit("ST: urn:ses-com:device:SatIPServer:1\r\n");
    assert(is_ascii_chars("M-SEARCH * HTTP/1.1\r\n"@));
    assert(is_ascii_chars("MAN: ssdp:discover\r\n"@));
    assert(is_ascii_chars("MX: 2\r\n"@));
    assert(is_ascii_chars("ST: urn:ses-com:device:SatIPServer:1\r\n"@));
    is_ascii_chars_encode_utf8("M-SEARCH * HTTP/1.1\r\n"@);
    is_ascii_chars_encode_utf8("MAN: ssdp:discover\r\n"@);
    is_ascii_chars_encode_utf8("MX: 2\r\n"@);
    is_ascii_chars_encode_utf8("ST: urn:ses-com:device:SatIPServer:1\r\n"@);
    assert(request_line().len() > 0);
    assert(man_line().len() > 0);
    assert(mx_line().len() > 0);
    assert(st_line().len() > 0);
    let s = search_request_bytes(a, ua);
    let i1 = request_line().len() as int;
    let i2 = i1 + host_line(a).len();
    let i3 = i2 + man_line().len();
    let i4 = i3 + mx_line().len();
    let i5 = i4 + st_line().len();
    let i6 = i5 + user_agent_line(ua).len();
    assert(s.subrange(i1, i2) =~= host_line(a));
    assert(s.subrange(i2, i3) =~= man_line());
    assert(s.subrange(i3, i4) =~= mx_line());
    assert(s.subrange(i4, i5) =~= st_line());
    assert(s.subrange(i5, i6) =~= user_agent_line(ua));
    assert(s.subrange(i6, i6 + 2) =~= crlf());
}

} // verus!
