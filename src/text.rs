//! Turning received bytes into text.
use vstd::prelude::*;
use vstd::utf8::{valid_utf8, decode_utf8};

verus! {

/// The text that lossy UTF-8 decoding makes of `b`.
pub uninterp spec fn lossy_text(b: Seq<u8>) -> Seq<char>;

/// `t` is the text of the bytes `b`: their lossy decoding, which is their exact decoding when
/// they are valid UTF-8.
pub open spec fn text_is(t: Seq<char>, b: Seq<u8>) -> bool {
    t == lossy_text(b) && (valid_utf8(b) ==> t == decode_utf8(b))
}

/// Relies on `String::from_utf8_lossy`: the text depends on the bytes alone, and valid UTF-8
/// comes back unchanged.
#[verifier::external_body]
pub(crate) fn text_of(b: &[u8]) -> (r: String)
    ensures
        r@ == lossy_text(b@),
        valid_utf8(b@) ==> r@ == decode_utf8(b@),
{
    String::from_utf8_lossy(b).into_owned()
}

} // verus!
