//! Legacy code-page text: the strict IBM866 decoder, and UTF-8 reading for
//! header fields.

use vstd::prelude::*;
use encoding::all::IBM866;
use encoding::{DecoderTrap, Encoding};

verus! {

use vstd::utf8::{valid_utf8, decode_utf8};

/// A text field that could not be decoded.
#[derive(Clone, Copy, Debug, PartialEq, Eq, Structural)]
pub enum DecodeError {
    InvalidSequence,
}

/// The characters that the IBM866 code page assigns to a byte sequence,
/// one character per byte.
pub uninterp spec fn ibm866_of(bytes: Seq<u8>) -> Seq<char>;

/// Relies on encoding's IBM866 codec in strict mode: a single-byte code
/// page whose forward table assigns a character to every byte, so
/// decoding cannot fail; each byte decodes to one character, and bytes up
/// to 0x7f are the ASCII characters themselves.
#[verifier::external_body]
pub(crate) fn decode_ibm866(bytes: &[u8]) -> (r: Result<String, DecodeError>)
    ensures
        r is Ok,
        r matches Ok(s) ==> s@ == ibm866_of(bytes@) && s@.len() == bytes@.len() && forall|i: int|
            0 <= i < bytes@.len() && bytes@[i] <= 0x7f ==> s@[i] == bytes@[i] as char,
{
    match IBM866.decode(bytes, DecoderTrap::Strict) {
        Ok(s) => Ok(s),
        Err(_) => Err(DecodeError::InvalidSequence),
    }
}

/// Relies on String::from_utf8: succeeds exactly on well-formed UTF-8 and
/// yields the decoded characters.
#[verifier::external_body]
pub(crate) fn utf8_to_string(bytes: &[u8]) -> (r: Result<String, DecodeError>)
    ensures
        r matches Ok(s) ==> valid_utf8(bytes@) && s@ == decode_utf8(bytes@),
        r matches Err(_) ==> !valid_utf8(bytes@),
{
    match String::from_utf8(bytes.to_vec()) {
        Ok(s) => Ok(s),
        Err(_) => Err(DecodeError::InvalidSequence),
    }
}

} // verus!
