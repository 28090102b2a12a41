//! Byte-level text helpers shared by the wire-format modules.
//!
//! The discovery wire formats are ASCII, so the library works on raw bytes
//! and only turns them into `String`s at its surface.

use vstd::prelude::*;
use vstd::string::StringSliceAdditionalSpecFns;
use vstd::string::StrSliceExecFns;

verus! {

/// A decimal digit byte, `'0'` through `'9'`.
pub open spec fn is_digit(b: u8) -> bool {
    '0' as u8 <= b <= '9' as u8
}

/// The chars a byte sequence denotes when read as ASCII: each byte below
/// 128 is its own character, every other byte becomes `'?'`.
pub open spec fn ascii_chars(s: Seq<u8>) -> Seq<char> {
    s.map_values(|b: u8| if b < 128 { b as char } else { '?' })
}

/// Relies on `String::from_utf8`: a sequence of bytes below 128 is valid
/// UTF-8 and decodes to the chars with the same values.
#[verifier::external_body]
fn ascii_to_string(v: Vec<u8>) -> (r: String)
    requires
        forall|i: int| 0 <= i < v@.len() ==> v@[i] < 128,
    ensures
        r@ == v@.map_values(|b: u8| b as char),
{
    match String::from_utf8(v) {
        Ok(s) => s,
        Err(_) => String::new(),
    }
}

/// Decode bytes as ASCII text, replacing each byte outside ASCII by `'?'`.
pub fn decode_ascii_lossy(v: &Vec<u8>) -> (r: String)
    ensures
        r@ == ascii_chars(v@),
{
    let mut out: Vec<u8> = Vec::new();
    let mut i: usize = 0;
    while i < v.len()
        invariant
            i <= v@.len(),
            out@.len() == i,
            forall|k: int|
                0 <= k < i ==> out@[k] == (if v@[k] < 128 {
                    v@[k]
                } else {
                    '?' as u8
                }),
        decreases v@.len() - i,
    {
        let b = v[i];
        if b < 128 {
            out.push(b);
        } else {
            out.push('?' as u8);
        }
        i += 1;
    }
    let r = ascii_to_string(out);
    proof {
        assert(r@ =~= ascii_chars(v@));
    }
    r
}

/// Append every byte of `s`.
pub fn push_all(out: &mut Vec<u8>, s: &Vec<u8>)
    ensures
        final(out)@ == old(out)@ + s@,
{
    let mut i: usize = 0;
    while i < s.len()
        invariant
            i <= s@.len(),
            out@ =~= old(out)@ + s@.subrange(0, i as int),
        decreases s@.len() - i,
    {
        out.push(s[i]);
        proof {
            assert(out@ =~= old(out)@ + s@.subrange(0, i + 1));
        }
        i += 1;
    }
    proof {
        assert(out@ =~= old(out)@ + s@);
    }
}

/// Append the UTF-8 bytes of a string slice.
pub fn push_str_bytes(out: &mut Vec<u8>, s: &str)
    ensures
        final(out)@ == old(out)@ + s.spec_bytes(),
{
    let b = s.as_bytes_vec();
    push_all(out, &b);
}

} // verus!
