//! Base58 text (Bitcoin alphabet) of byte sequences, through the bs58 crate.

use vstd::prelude::*;

verus! {

/// A character of the Bitcoin Base58 alphabet: digits and letters without
/// `0`, `O`, `I` and `l`.
pub open spec fn is_base58_char(c: char) -> bool {
    ('1' <= c && c <= '9') || ('A' <= c && c <= 'H') || ('J' <= c && c <= 'N') || ('P' <= c
        && c <= 'Z') || ('a' <= c && c <= 'k') || ('m' <= c && c <= 'z')
}

/// Text written in the Base58 alphabet only.
pub open spec fn is_base58_text(s: Seq<char>) -> bool {
    forall|i: int| 0 <= i < s.len() ==> is_base58_char(#[trigger] s[i])
}

/// The Base58 text of a byte sequence, as the bs58 crate writes it.
pub uninterp spec fn base58_of(b: Seq<u8>) -> Seq<char>;

#[verifier::external_type_specification]
#[verifier::external_body]
pub struct ExBs58DecodeError(bs58::decode::Error);

/// Relies on `bs58::encode(..).into_string()`: the Base58 text of the bytes,
/// a function of the bytes alone, written in the alphabet, empty exactly for
/// no bytes.
#[verifier::external_body]
fn bs58_encode(bytes: &[u8]) -> (r: String)
    ensures
        r@ == base58_of(bytes@),
        is_base58_text(r@),
        r@.len() == 0 <==> bytes@.len() == 0,
{
    bs58::encode(bytes).into_string()
}

/// Relies on `bs58::decode(..).into_vec()`: it fails exactly when a character
/// lies outside the alphabet, and otherwise returns the one byte sequence whose
/// Base58 text is the input.
#[verifier::external_body]
fn bs58_decode(text: &str) -> (r: Result<Vec<u8>, bs58::decode::Error>)
    ensures
        match r {
            Ok(v) => is_base58_text(text@) && base58_of(v@) == text@ && forall|b: Seq<u8>|
                base58_of(b) == text@ ==> v@ == b,
            Err(_) => !is_base58_text(text@) && forall|b: Seq<u8>| base58_of(b) != text@,
        },
{
    bs58::decode(text).into_vec()
}

/// Why a Base58 text could not be decoded.
#[derive(Debug, PartialEq, Eq)]
pub enum Base58Error {
    /// The text holds a character outside the alphabet; the codec's own
    /// report says which and where.
    InvalidBase58(bs58::decode::Error),
}

/// The Base58 text of `bytes`.
pub fn encode_bytes_to_base58(bytes: &[u8]) -> (r: String)
    ensures
        r@ == base58_of(bytes@),
        is_base58_text(r@),
        r@.len() == 0 <==> bytes@.len() == 0,
{
    bs58_encode(bytes)
}

/// The bytes whose Base58 text is `text`. Decoding the text of any byte
/// sequence gives that sequence back.
pub fn decode_base58_to_bytes(text: &str) -> (r: Result<Vec<u8>, Base58Error>)
    ensures
        r is Ok <==> is_base58_text(text@),
        r matches Ok(v) ==> base58_of(v@) == text@,
        forall|b: Seq<u8>| base58_of(b) == text@ ==> (r matches Ok(v) && v@ == b),
{
    match bs58_decode(text) {
        Ok(v) => Ok(v),
        Err(e) => Err(Base58Error::InvalidBase58(e)),
    }
}

} // verus!
