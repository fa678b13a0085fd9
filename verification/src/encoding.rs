use vstd::prelude::*;

verus! {

/// The base64 text of a byte string, as `base64::encode` writes it.
pub uninterp spec fn base64_text(bytes: Seq<u8>) -> Seq<char>;

/// The bytes that a base64 text stands for, as `base64::decode` reads it;
/// nothing for a text that it rejects.
pub uninterp spec fn base64_bytes(text: Seq<char>) -> Option<Seq<u8>>;

/// The error of `base64::decode`.
#[verifier::external_type_specification]
#[verifier::external_body]
pub struct ExDecodeError(base64::DecodeError);

/// Is a byte string of length `n` short enough for its base64 text, four
/// characters for every three bytes, to be allocated?
pub open spec fn encodable_len(n: nat) -> bool {
    n / 3 * 4 + 4 <= isize::MAX
}

/// Calls `base64::encode`, the standard alphabet with padding.
///
/// Trusted: the result is a function of the bytes alone, and decoding it
/// gives the bytes back. The call panics where the length of the text
/// overflows, and the allocation fails where it exceeds `isize::MAX`;
/// `requires` leaves both out.
#[verifier::external_body]
pub(crate) fn encode(bytes: &Vec<u8>) -> (text: String)
    requires
        encodable_len(bytes@.len()),
    ensures
        text@ == base64_text(bytes@),
        base64_bytes(text@) == Some(bytes@),
{
    base64::encode(bytes)
}

/// Calls `base64::decode`, the standard alphabet with padding.
///
/// Trusted: whether the text is accepted, and the bytes it gives, are a
/// function of the text alone. The call panics only where the length of
/// the text plus seven overflows `usize`, which no string can reach: a
/// string is never longer than `isize::MAX` bytes.
#[verifier::external_body]
pub(crate) fn decode(text: &str) -> (out: Result<Vec<u8>, base64::DecodeError>)
    ensures
        match out {
            Ok(bytes) => base64_bytes(text@) == Some(bytes@),
            Err(_) => base64_bytes(text@) is None,
        },
{
    base64::decode(text)
}

} // verus!
