//! Fetching the description document over HTTP.
//!
//! The library frames the request and reads the response; moving the bytes
//! is the caller's affair.  A `GET` is rendered for the advertised
//! location, and the response body is cut out of the raw reply bytes,
//! honouring `Content-Length` when one is given.

use vstd::prelude::*;
use vstd::string::StrSliceExecFns;
use vstd::string::StringSliceAdditionalSpecFns;
use vstd::utf8::encode_utf8;

use crate::addr::{all_digits, canonical_dec, digits_val, pow10};
use crate::errors::{Error, ErrorType};
use crate::response::{
    copy_range, header_lookup, headers_view, parse_response, HeaderBlock, ResponseParse,
};
use crate::text::{push_all, push_str_bytes};
use crate::uri::{uri_bytes, DescriptionUri, UriView};

verus! {

/// The path asked for: the URI's path, or `/` when it is empty.
pub open spec fn request_path(u: UriView) -> Seq<u8> {
    if u.path.len() == 0 {
        seq!['/' as u8]
    } else {
        u.path
    }
}

/// The host (and optional port) named in the `Host` header.
pub open spec fn host_port_bytes(u: UriView) -> Seq<u8> {
    u.host + (match u.port {
        Some(p) => seq![':' as u8] + crate::addr::dec_bytes(p as int),
        None => seq![],
    })
}

/// The whole `GET` request for a description document.
pub open spec fn get_request_bytes(u: UriView) -> Seq<u8> {
    encode_utf8("GET "@) + request_path(u) + encode_utf8(" HTTP/1.1\r\nHost: "@) + host_port_bytes(
        u,
    ) + encode_utf8("\r\nConnection: close\r\n\r\n"@)
}

/// Render the `GET` request for the given location.
pub fn build_get_request(u: &DescriptionUri) -> (r: Vec<u8>)
    ensures
        r@ == get_request_bytes(u@),
{
    let mut out: Vec<u8> = Vec::new();
    push_str_bytes(&mut out, "GET ");
    if u.path.len() == 0 {
        out.push('/' as u8);
    } else {
        push_all(&mut out, &u.path);
    }
    push_str_bytes(&mut out, " HTTP/1.1\r\nHost: ");
    push_all(&mut out, &u.host);
    match u.port {
        Some(p) => {
            out.push(':' as u8);
            crate::addr::push_dec(&mut out, p);
        },
        None => {},
    }
    push_str_bytes(&mut out, "\r\nConnection: close\r\n\r\n");
    proof {
        assert(out@ =~= get_request_bytes(u@));
    }
    out
}

/// The name of the body-length header.
pub open spec fn content_length_name() -> Seq<u8> {
    encode_utf8("Content-Length"@)
}

/// The body of a fetched reply: the bytes after the header block, cut to
/// `Content-Length` when that header is present.  A reply whose headers
/// cannot be parsed, or whose length header is not a canonical numeral of
/// at most 19 digits that fits the bytes present, yields nothing.
pub open spec fn description_body(s: Seq<u8>) -> Option<Seq<u8>> {
    match parse_response(s) {
        ResponseParse::Done { headers, end } => match header_lookup(
            headers,
            content_length_name(),
        ) {
            None => Some(s.subrange(end, s.len() as int)),
            Some(v) => {
                if canonical_dec(v) && v.len() <= 19 && digits_val(v) <= s.len() - end {
                    Some(s.subrange(end, end + digits_val(v)))
                } else {
                    None
                }
            },
        },
        _ => None,
    }
}

proof fn lemma_pow10_19()
    ensures
        pow10(19) == 0x8ac7230489e80000,
{
    assert(pow10(0) == 1);
    assert(pow10(1) == 10);
    assert(pow10(2) == 100);
    assert(pow10(3) == 1000);
    assert(pow10(4) == 10000);
    assert(pow10(5) == 100000);
    assert(pow10(6) == 1000000);
    assert(pow10(7) == 10000000);
    assert(pow10(8) == 100000000);
    assert(pow10(9) == 1000000000);
    assert(pow10(10) == 10000000000);
    assert(pow10(11) == 100000000000);
    assert(pow10(12) == 1000000000000);
    assert(pow10(13) == 10000000000000);
    assert(pow10(14) == 100000000000000);
    assert(pow10(15) == 1000000000000000);
    assert(pow10(16) == 10000000000000000);
    assert(pow10(17) == 100000000000000000);
    assert(pow10(18) == 1000000000000000000);
    assert(pow10(19) == 10000000000000000000);
}

/// Read a canonical numeral of at most 19 digits.
fn parse_length_value(v: &Vec<u8>) -> (r: Option<u64>)
    ensures
        match r {
            Some(n) => canonical_dec(v@) && v@.len() <= 19 && n as int == digits_val(v@),
            None => !(canonical_dec(v@) && v@.len() <= 19),
        },
{
    if v.len() == 0 || v.len() > 19 {
        return None;
    }
    if v.len() > 1 && v[0] == '0' as u8 {
        return None;
    }
    let mut n: u64 = 0;
    let mut j: usize = 0;
    while j < v.len()
        invariant
            j <= v@.len() <= 19,
            forall|k: int| 0 <= k < j ==> crate::text::is_digit(#[trigger] v@[k]),
            n as int == digits_val(v@.subrange(0, j as int)),
        decreases v@.len() - j,
    {
        let b = v[j];
        if !('0' as u8 <= b && b <= '9' as u8) {
            proof {
                assert(!all_digits(v@));
            }
            return None;
        }
        proof {
            crate::addr::lemma_digits_val_upper(v@.subrange(0, j as int));
            crate::addr::lemma_pow10_monotone(j as int, 18);
            lemma_pow10_19();
            assert(v@.subrange(0, j + 1).drop_last() =~= v@.subrange(0, j as int));
        }
        n = n * 10 + (b - '0' as u8) as u64;
        j += 1;
    }
    proof {
        assert(v@.subrange(0, v@.len() as int) =~= v@);
        assert(canonical_dec(v@));
    }
    Some(n)
}

/// Cut the description body out of the raw reply bytes.  Success is owed
/// exactly when the reply reads as a well-formed response whose declared
/// length, if any, fits what arrived.
pub fn extract_description_body(s: &Vec<u8>) -> (r: Result<Vec<u8>, Error>)
    ensures
        match r {
            Ok(body) => description_body(s@) == Some(body@),
            Err(e) => description_body(s@) is None && e.error_type
                == ErrorType::CouldNotRetrieveServerDescription,
        },
{
    let e0 = crate::response::line_end_exec(s, 0);
    if e0 >= s.len() {
        return Err(
            Error::new(
                ErrorType::CouldNotRetrieveServerDescription,
                "Description reply ended before its header block",
            ),
        );
    }
    if !crate::response::check_status_line(s, e0) {
        return Err(
            Error::new(
                ErrorType::CouldNotRetrieveServerDescription,
                "Description reply carries no well-formed status line",
            ),
        );
    }
    let block = crate::response::parse_headers_exec(s, e0 + 2);
    let (hs, end) = match block {
        HeaderBlock::Complete(hs, end) => (hs, end),
        _ => {
            return Err(
                Error::new(
                    ErrorType::CouldNotRetrieveServerDescription,
                    "Description reply headers could not be parsed",
                ),
            );
        },
    };
    let cl_name = "Content-Length".as_bytes_vec();
    match crate::response::header_lookup_exec(&hs, &cl_name) {
        None => Ok(copy_range(s, end, s.len())),
        Some(v) => {
            let n = match parse_length_value(&v) {
                Some(n) => n,
                None => {
                    return Err(
                        Error::new(
                            ErrorType::CouldNotRetrieveServerDescription,
                            "Description reply declares an unusable content length",
                        ),
                    );
                },
            };
            let rem = s.len() - end;
            if n > rem as u64 {
                return Err(
                    Error::new(
                        ErrorType::CouldNotRetrieveServerDescription,
                        "Description reply is shorter than its declared length",
                    ),
                );
            }
            Ok(copy_range(s, end, end + n as usize))
        },
    }
}

} // verus!
