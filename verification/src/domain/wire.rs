use vstd::prelude::*;
use vstd::utf8::{decode_utf8, valid_utf8};

verus! {

/// `core::str::Utf8Error`, the error of `core::str::from_utf8`. Nothing is read from it.
#[verifier::external_type_specification]
#[verifier::external_body]
pub struct ExUtf8Error(core::str::Utf8Error);

/// `core::str::from_utf8` accepts exactly the byte strings that are valid UTF-8, and
/// gives for each the text that the bytes encode. Nothing is claimed of the error.
pub assume_specification[ core::str::from_utf8 ](v: &[u8]) -> (r: Result<
    &str,
    core::str::Utf8Error,
>)
    ensures
        match r {
            Ok(text) => valid_utf8(v@) && text@ == decode_utf8(v@),
            Err(_) => !valid_utf8(v@),
        },
;

/// The text that bytes from the wire are taken for: the text that they encode, or the
/// empty text where they encode none.
pub open spec fn text_of(bytes: Seq<u8>) -> Seq<char> {
    if valid_utf8(bytes) {
        decode_utf8(bytes)
    } else {
        Seq::empty()
    }
}

/// Takes bytes from the wire for text. Bytes that are no valid UTF-8 count as the empty
/// text.
pub fn received_text(bytes: &[u8]) -> (r: String)
    ensures
        r@ == text_of(bytes@),
{
    match core::str::from_utf8(bytes) {
        Ok(text) => String::from_str(text),
        Err(_) => String::new(),
    }
}

} // verus!
