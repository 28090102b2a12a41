//! Device description documents.
//!
//! The description is an XML document; the discovery pipeline only reads
//! the text of the `manufacturer` and `modelName` elements inside the
//! `device` element.  The reader below scans for those elements by tag
//! name — attributes are skipped, namespaces and schemas are not
//! interpreted — and tolerates any malformed document by reporting both
//! fields absent, so one bad document never aborts a discovery run.

use vstd::prelude::*;
use vstd::string::StrSliceExecFns;
use vstd::utf8::encode_utf8;

use crate::response::find_byte;
use crate::text::ascii_chars;

verus! {

/// A byte that may close the name in an opening tag.
pub open spec fn is_tag_delim(b: u8) -> bool {
    b == '>' as u8 || b == '/' as u8 || b == ' ' as u8 || b == '\t' as u8 || b == '\r' as u8 || b
        == '\n' as u8
}

/// An opening tag for `name` starts at `i`: `<name` followed by a
/// delimiter (attributes or the closing bracket).
pub open spec fn open_tag_at(s: Seq<u8>, name: Seq<u8>, i: int) -> bool {
    &&& 0 <= i
    &&& i + 1 + name.len() < s.len()
    &&& s[i] == '<' as u8
    &&& s.subrange(i + 1, i + 1 + name.len()) == name
    &&& is_tag_delim(s[i + 1 + name.len()])
}

/// First opening tag for `name` at or after `i`, or the buffer length.
pub open spec fn find_open_tag(s: Seq<u8>, name: Seq<u8>, i: int) -> int
    recommends
        0 <= i <= s.len(),
    decreases s.len() - i,
{
    if i >= s.len() {
        s.len() as int
    } else if open_tag_at(s, name, i) {
        i
    } else {
        find_open_tag(s, name, i + 1)
    }
}

/// A closing tag `</name>` starts at `i`.
pub open spec fn close_tag_at(s: Seq<u8>, name: Seq<u8>, i: int) -> bool {
    &&& 0 <= i
    &&& i + 2 + name.len() < s.len()
    &&& s[i] == '<' as u8
    &&& s[i + 1] == '/' as u8
    &&& s.subrange(i + 2, i + 2 + name.len()) == name
    &&& s[i + 2 + name.len()] == '>' as u8
}

/// First closing tag for `name` at or after `i`, or the buffer length.
pub open spec fn find_close_tag(s: Seq<u8>, name: Seq<u8>, i: int) -> int
    recommends
        0 <= i <= s.len(),
    decreases s.len() - i,
{
    if i >= s.len() {
        s.len() as int
    } else if close_tag_at(s, name, i) {
        i
    } else {
        find_close_tag(s, name, i + 1)
    }
}

/// The content of the first `name` element: the bytes between its opening
/// tag's `>` and the next `</name>`; empty for a self-closing tag;
/// nothing when the element or its end cannot be found.
pub open spec fn element_content(s: Seq<u8>, name: Seq<u8>) -> Option<Seq<u8>> {
    let t = find_open_tag(s, name, 0);
    if t == s.len() {
        None
    } else {
        let g = find_byte(s, t + 1 + name.len(), '>' as u8);
        if g == s.len() {
            None
        } else if s[g - 1] == '/' as u8 {
            Some(seq![])
        } else {
            let c = find_close_tag(s, name, g + 1);
            if c == s.len() {
                None
            } else {
                Some(s.subrange(g + 1, c))
            }
        }
    }
}

/// The tag name of the device element.
pub open spec fn device_name() -> Seq<u8> {
    encode_utf8("device"@)
}

/// The tag name of the manufacturer element.
pub open spec fn manufacturer_name() -> Seq<u8> {
    encode_utf8("manufacturer"@)
}

/// The tag name of the model-name element.
pub open spec fn model_name_tag() -> Seq<u8> {
    encode_utf8("modelName"@)
}

/// The text of the named child inside the `device` element, if both are
/// found.
pub open spec fn device_field(doc: Seq<u8>, name: Seq<u8>) -> Option<Seq<u8>> {
    match element_content(doc, device_name()) {
        None => None,
        Some(dev) => element_content(dev, name),
    }
}

proof fn lemma_find_open_tag_bounds(s: Seq<u8>, name: Seq<u8>, i: int)
    requires
        0 <= i <= s.len(),
    ensures
        i <= find_open_tag(s, name, i) <= s.len(),
        find_open_tag(s, name, i) < s.len() ==> open_tag_at(s, name, find_open_tag(s, name, i)),
    decreases s.len() - i,
{
    if i < s.len() && !open_tag_at(s, name, i) {
        lemma_find_open_tag_bounds(s, name, i + 1);
    }
}

proof fn lemma_find_close_tag_bounds(s: Seq<u8>, name: Seq<u8>, i: int)
    requires
        0 <= i <= s.len(),
    ensures
        i <= find_close_tag(s, name, i) <= s.len(),
        find_close_tag(s, name, i) < s.len() ==> close_tag_at(s, name, find_close_tag(s, name, i)),
    decreases s.len() - i,
{
    if i < s.len() && !close_tag_at(s, name, i) {
        lemma_find_close_tag_bounds(s, name, i + 1);
    }
}

fn open_tag_at_exec(s: &Vec<u8>, name: &Vec<u8>, j: usize) -> (r: bool)
    ensures
        r == open_tag_at(s@, name@, j as int),
{
    if !(j < s.len() && s.len() - j - 1 > name.len()) {
        return false;
    }
    if s[j] != '<' as u8 {
        return false;
    }
    let mut k: usize = 0;
    while k < name.len()
        invariant
            k <= name@.len(),
            j + 1 + name@.len() < s@.len() <= usize::MAX as int,
            forall|m: int| 0 <= m < k ==> s@[j + 1 + m] == name@[m],
        decreases name@.len() - k,
    {
        if s[j + 1 + k] != name[k] {
            proof {
                let sub = s@.subrange(j + 1, j + 1 + name@.len());
                assert(sub[k as int] == s@[j + 1 + k]);
            }
            return false;
        }
        k += 1;
    }
    let d = s[j + 1 + name.len()];
    let r = d == '>' as u8 || d == '/' as u8 || d == ' ' as u8 || d == '\t' as u8 || d
        == '\r' as u8 || d == '\n' as u8;
    proof {
        if r {
            assert(s@.subrange(j + 1, j + 1 + name@.len()) =~= name@);
        }
    }
    r
}

fn close_tag_at_exec(s: &Vec<u8>, name: &Vec<u8>, j: usize) -> (r: bool)
    ensures
        r == close_tag_at(s@, name@, j as int),
{
    if !(j < s.len() && s.len() - j > 2 && s.len() - j - 2 > name.len()) {
        return false;
    }
    if s[j] != '<' as u8 || s[j + 1] != '/' as u8 {
        return false;
    }
    let mut k: usize = 0;
    while k < name.len()
        invariant
            k <= name@.len(),
            j + 2 + name@.len() < s@.len() <= usize::MAX as int,
            forall|m: int| 0 <= m < k ==> s@[j + 2 + m] == name@[m],
        decreases name@.len() - k,
    {
        if s[j + 2 + k] != name[k] {
            proof {
                let sub = s@.subrange(j + 2, j + 2 + name@.len());
                assert(sub[k as int] == s@[j + 2 + k]);
            }
            return false;
        }
        k += 1;
    }
    let r = s[j + 2 + name.len()] == '>' as u8;
    proof {
        if r {
            assert(s@.subrange(j + 2, j + 2 + name@.len()) =~= name@);
        }
    }
    r
}

fn find_open_tag_exec(s: &Vec<u8>, name: &Vec<u8>, i: usize) -> (e: usize)
    requires
        i <= s@.len(),
    ensures
        e as int == find_open_tag(s@, name@, i as int),
        i <= e <= s@.len(),
{
    proof {
        lemma_find_open_tag_bounds(s@, name@, i as int);
    }
    let mut j = i;
    while j < s.len() && !open_tag_at_exec(s, name, j)
        invariant
            i <= j <= s@.len(),
            find_open_tag(s@, name@, i as int) == find_open_tag(s@, name@, j as int),
        decreases s@.len() - j,
    {
        j += 1;
    }
    j
}

fn find_close_tag_exec(s: &Vec<u8>, name: &Vec<u8>, i: usize) -> (e: usize)
    requires
        i <= s@.len(),
    ensures
        e as int == find_close_tag(s@, name@, i as int),
        i <= e <= s@.len(),
{
    proof {
        lemma_find_close_tag_bounds(s@, name@, i as int);
    }
    let mut j = i;
    while j < s.len() && !close_tag_at_exec(s, name, j)
        invariant
            i <= j <= s@.len(),
            find_close_tag(s@, name@, i as int) == find_close_tag(s@, name@, j as int),
        decreases s@.len() - j,
    {
        j += 1;
    }
    j
}

/// The content of the first `name` element of `s`, as a copy.
fn element_content_exec(s: &Vec<u8>, name: &Vec<u8>) -> (r: Option<Vec<u8>>)
    ensures
        match r {
            Some(v) => element_content(s@, name@) == Some(v@),
            None => element_content(s@, name@) is None,
        },
{
    let t = find_open_tag_exec(s, name, 0);
    if t == s.len() {
        return None;
    }
    proof {
        lemma_find_open_tag_bounds(s@, name@, 0);
    }
    let g = crate::response::find_byte_exec(s, t + 1 + name.len(), '>' as u8);
    if g == s.len() {
        return None;
    }
    if s[g - 1] == '/' as u8 {
        return Some(Vec::new());
    }
    let c = find_close_tag_exec(s, name, g + 1);
    if c == s.len() {
        return None;
    }
    Some(crate::response::copy_range(s, g + 1, c))
}

/// The named field inside the `device` element, as a copy.
fn device_field_exec(doc: &Vec<u8>, name: &Vec<u8>) -> (r: Option<Vec<u8>>)
    ensures
        match r {
            Some(v) => device_field(doc@, name@) == Some(v@),
            None => device_field(doc@, name@) is None,
        },
{
    let dev_name = "device".as_bytes_vec();
    let dev = match element_content_exec(doc, &dev_name) {
        Some(d) => d,
        None => {
            return None;
        },
    };
    element_content_exec(&dev, name)
}

/// The text of the `manufacturer` element inside the `device` element,
/// read as ASCII; absent when either element cannot be found.
pub fn extract_manufacturer(root: &Vec<u8>) -> (r: Option<String>)
    ensures
        r is Some <==> device_field(root@, manufacturer_name()) is Some,
        r matches Some(s) ==> s@ == ascii_chars(device_field(root@, manufacturer_name()).unwrap()),
{
    let name = "manufacturer".as_bytes_vec();
    match device_field_exec(root, &name) {
        Some(v) => Some(crate::text::decode_ascii_lossy(&v)),
        None => None,
    }
}

/// The text of the `modelName` element inside the `device` element, read
/// as ASCII; absent when either element cannot be found.
pub fn extract_model_name(root: &Vec<u8>) -> (r: Option<String>)
    ensures
        r is Some <==> device_field(root@, model_name_tag()) is Some,
        r matches Some(s) ==> s@ == ascii_chars(device_field(root@, model_name_tag()).unwrap()),
{
    let name = "modelName".as_bytes_vec();
    match device_field_exec(root, &name) {
        Some(v) => Some(crate::text::decode_ascii_lossy(&v)),
        None => None,
    }
}

} // verus!
