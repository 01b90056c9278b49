//! Comparing and decoding text.

use vstd::prelude::*;
use vstd::utf8::{decode_utf8, encode_utf8, encode_utf8_decode_utf8, valid_utf8};

verus! {

/// Whether two strings are equal, compared by their UTF-8 bytes.
pub fn str_equal(a: &str, b: &str) -> (r: bool)
    ensures
        r == (a@ == b@),
{
    let x = a.as_bytes();
    let y = b.as_bytes();
    proof {
        encode_utf8_decode_utf8(a@);
        encode_utf8_decode_utf8(b@);
    }
    if x.len() != y.len() {
        return false;
    }
    let mut i: usize = 0;
    while i < x.len()
        invariant
            x@.len() == y@.len(),
            x@ == encode_utf8(a@),
            y@ == encode_utf8(b@),
            i <= x@.len(),
            forall|j: int| 0 <= j < i ==> x@[j] == y@[j],
        decreases x@.len() - i,
    {
        if x[i] != y[i] {
            return false;
        }
        i = i + 1;
    }
    assert(x@ =~= y@);
    true
}

/// Whether an optional name is present and equal to `q`.
pub open spec fn name_is(n: Option<String>, q: Seq<char>) -> bool {
    match n {
        Some(s) => s@ == q,
        None => false,
    }
}

/// Whether an optional name is present and equal to `q`.
pub fn name_matches(n: &Option<String>, q: &str) -> (r: bool)
    ensures
        r == name_is(*n, q@),
{
    match n {
        Some(s) => str_equal(s.as_str(), q),
        None => false,
    }
}

/// What decoding bytes as UTF-8 gives, each invalid sequence replaced by U+FFFD.
pub uninterp spec fn spec_utf8_lossy(b: Seq<u8>) -> Seq<char>;

/// Decodes bytes as UTF-8, replacing invalid sequences by U+FFFD
/// (`String::from_utf8_lossy`). Its result is named, as a function of the bytes alone;
/// as its documentation states, bytes that are valid UTF-8 give the text they encode.
#[verifier::external_body]
pub(crate) fn utf8_lossy(b: &[u8]) -> (r: String)
    ensures
        r@ == spec_utf8_lossy(b@),
        valid_utf8(b@) ==> r@ == decode_utf8(b@),
{
    String::from_utf8_lossy(b).into_owned()
}

} // verus!
