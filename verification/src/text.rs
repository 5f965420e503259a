//! Text: turning bytes into strings and comparing strings.
use vstd::prelude::*;
use vstd::utf8::{valid_utf8, decode_utf8, encode_utf8};

verus! {

broadcast use vstd::utf8::decode_utf8_encode_utf8, vstd::utf8::encode_utf8_decode_utf8;

/// `String::from_utf8`: the string the bytes encode, or `None` when they are
/// not UTF-8.  Its documentation promises exactly that: an error for bytes
/// that are not valid UTF-8, otherwise a string of those bytes.
#[verifier::external_body]
pub(crate) fn string_from_utf8(bytes: Vec<u8>) -> (r: Option<String>)
    ensures
        r is Some <==> valid_utf8(bytes@),
        r matches Some(s) ==> s@ == decode_utf8(bytes@),
{
    match String::from_utf8(bytes) {
        Ok(s) => Some(s),
        Err(_) => None,
    }
}

/// The bytes without a final zero byte, if they end with one.
pub open spec fn strip_nul(v: Seq<u8>) -> Seq<u8> {
    if v.len() > 0 && v.last() == 0 {
        v.drop_last()
    } else {
        v
    }
}

/// The text of a string of bytes that may end with a zero byte: `None` when
/// the bytes are not UTF-8.
pub open spec fn cstr_text(v: Seq<u8>) -> Option<Seq<char>> {
    if valid_utf8(strip_nul(v)) {
        Some(decode_utf8(strip_nul(v)))
    } else {
        None
    }
}

/// The text of `value` with one final NUL removed: `None` when `value` is not UTF-8.
pub fn cstr_from_bytes(value: Vec<u8>) -> (r: Option<String>)
    ensures
        r is Some <==> cstr_text(value@) is Some,
        r matches Some(s) ==> s@ == cstr_text(value@)->0,
{
    let mut value = value;
    let n = value.len();
    if n > 0 && value[n - 1] == 0 {
        value.pop();
    }
    string_from_utf8(value)
}

/// Byte-wise equality of two byte slices.
pub fn bytes_eq(a: &[u8], b: &[u8]) -> (r: bool)
    ensures
        r == (a@ == b@),
{
    if a.len() != b.len() {
        return false;
    }
    let mut i: usize = 0;
    while i < a.len()
        invariant
            a@.len() == b@.len(),
            i <= a@.len(),
            forall|j: int| 0 <= j < i ==> a@[j] == b@[j],
        decreases a@.len() - i,
    {
        if a[i] != b[i] {
            return false;
        }
        i = i + 1;
    }
    proof {
        assert(a@ =~= b@);
    }
    true
}

/// Whether two strings hold the same text.
pub fn str_eq(a: &str, b: &str) -> (r: bool)
    ensures
        r == (a@ == b@),
{
    let ab = a.as_bytes();
    let bb = b.as_bytes();
    let r = bytes_eq(ab, bb);
    proof {
        if r {
            assert(decode_utf8(encode_utf8(a@)) == a@);
            assert(decode_utf8(encode_utf8(b@)) == b@);
        }
    }
    r
}

/// A string holding the text of `s`.
pub fn owned(s: &str) -> (r: String)
    ensures
        r@ == s@,
{
    s.to_owned()
}

} // verus!
