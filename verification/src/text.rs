//! Comparing and building text from bytes.
use vstd::prelude::*;
use vstd::utf8::{valid_utf8, decode_utf8, encode_utf8, encode_utf8_decode_utf8};
use vstd::string::StringSliceAdditionalSpecFns;

verus! {

/// Whether two texts are equal, compared byte by byte.
pub fn text_eq(a: &str, b: &str) -> (r: bool)
    ensures
        r == (a@ == b@),
{
    let ab = a.as_bytes();
    let bb = b.as_bytes();
    proof {
        encode_utf8_decode_utf8(a@);
        encode_utf8_decode_utf8(b@);
    }
    if ab.len() != bb.len() {
        return false;
    }
    let mut i: usize = 0;
    while i < ab.len()
        invariant
            ab.len() == bb.len(),
            ab@ == a.spec_bytes(),
            bb@ == b.spec_bytes(),
            i <= ab.len(),
            forall|k: int| 0 <= k < i ==> ab@[k] == bb@[k],
        decreases ab.len() - i,
    {
        if ab[i] != bb[i] {
            return false;
        }
        i = i + 1;
    }
    assert(ab@ =~= bb@);
    true
}

/// `String::from_utf8`: the text that `bytes` encode, or `None` when they are not
/// valid UTF-8. The contract takes vstd's `valid_utf8` and `decode_utf8` as the
/// meaning of UTF-8.
#[verifier::external_body]
pub(crate) fn string_from_utf8(bytes: Vec<u8>) -> (r: Option<String>)
    ensures
        r is Some <==> valid_utf8(bytes@),
        r matches Some(s) ==> s@ == decode_utf8(bytes@),
{
    String::from_utf8(bytes).ok()
}

} // verus!
