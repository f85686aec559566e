//! Text fields of the header.
use vstd::prelude::*;

verus! {

/// What the Shift_JIS decoder of encoding_rs makes of the bytes `b`.
pub uninterp spec fn shift_jis_text(b: Seq<u8>) -> Seq<char>;

/// Whether every byte of `b` is an ASCII code.
pub open spec fn all_ascii(b: Seq<u8>) -> bool {
    forall|i: int| 0 <= i < b.len() ==> #[trigger] b[i] < 0x80
}

/// The characters of the ASCII bytes `b`, one for one.
pub open spec fn ascii_chars(b: Seq<u8>) -> Seq<char> {
    Seq::new(b.len(), |i: int| b[i] as char)
}

/// Relies on encoding_rs's `Encoding::decode` with `SHIFT_JIS`: it replaces malformed
/// sequences and never fails, and its text depends on the bytes alone.
#[verifier::external_body]
pub(crate) fn decode_shift_jis(b: &[u8]) -> (r: String)
    ensures
        r@ == shift_jis_text(b@),
{
    let (text, _, _) = encoding_rs::SHIFT_JIS.decode(b);
    text.into_owned()
}

/// Relies on std's `String::from_utf8_lossy`: ASCII bytes are valid UTF-8 and become
/// the characters of the same code.
#[verifier::external_body]
pub(crate) fn ascii_string(b: &[u8]) -> (r: String)
    requires
        all_ascii(b@),
    ensures
        r@ == ascii_chars(b@),
{
    String::from_utf8_lossy(b).into_owned()
}

} // verus!
