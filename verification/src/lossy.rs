//! Bytes of unknown origin read as UTF-8.

use vstd::prelude::*;
use vstd::utf8::*;

verus! {

/// The text that `String::from_utf8_lossy` reads out of a byte string.
pub uninterp spec fn lossy_text(bytes: Seq<u8>) -> Seq<char>;

/// The text that a byte string reads as: what it is the UTF-8 of, and where it
/// is that of nothing, the same with each part that is no valid UTF-8 replaced.
pub open spec fn utf8_text(bytes: Seq<u8>) -> Seq<char> {
    if valid_utf8(bytes) {
        decode_utf8(bytes)
    } else {
        lossy_text(bytes)
    }
}

/// `String::from_utf8_lossy`, made into an owned string: each part that is no
/// valid UTF-8 becomes a replacement character. Which parts those are is left
/// to the name `lossy_text`; valid UTF-8 comes out unchanged.
#[verifier::external_body]
pub(crate) fn utf8_lossy(bytes: &[u8]) -> (r: String)
    ensures
        r@ == lossy_text(bytes@),
        valid_utf8(bytes@) ==> r@ == decode_utf8(bytes@),
{
    String::from_utf8_lossy(bytes).into_owned()
}

/// Valid UTF-8 reads as the text that it encodes, and so does every text that
/// is encoded.
pub proof fn law_utf8_text(bytes: Seq<u8>, s: Seq<char>)
    ensures
        valid_utf8(bytes) ==> encode_utf8(utf8_text(bytes)) == bytes,
        utf8_text(encode_utf8(s)) == s,
        !valid_utf8(bytes) ==> utf8_text(bytes) == lossy_text(bytes),
{
    if valid_utf8(bytes) {
        decode_utf8_encode_utf8(bytes);
    }
    encode_utf8_valid_utf8(s);
    encode_utf8_decode_utf8(s);
}

} // verus!
