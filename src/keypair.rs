//! Fresh ed25519 keypairs of the ledger, as bytes and as Base58 text.

use vstd::prelude::*;
use vstd::slice::slice_subrange;
use crate::base58::{base58_of, encode_bytes_to_base58};

verus! {

#[verifier::external_type_specification]
#[verifier::external_body]
pub struct ExKeypair(solana_sdk::signature::Keypair);

/// Relies on solana_sdk's `Keypair::new`: a keypair drawn from the operating
/// system's secure random source. Nothing is known of which one.
pub assume_specification[ solana_sdk::signature::Keypair::new ]() -> solana_sdk::signature::Keypair;

/// Relies on solana_sdk's `Keypair::to_bytes`: the keypair as 64 bytes, the
/// 32 secret bytes followed by the 32 public bytes.
#[verifier::external_body]
fn keypair_bytes(kp: &solana_sdk::signature::Keypair) -> (r: Vec<u8>)
    ensures
        r@.len() == 64,
{
    kp.to_bytes().to_vec()
}

/// The 64 bytes of a freshly drawn keypair.
pub(crate) fn random_keypair_bytes() -> (r: Vec<u8>)
    ensures
        r@.len() == 64,
{
    let kp = solana_sdk::signature::Keypair::new();
    keypair_bytes(&kp)
}

/// The public identifier of the keypair whose 64 bytes are `kp`: the Base58
/// text of its public half, the bytes 32 to 64.
pub open spec fn pubkey_text_of(kp: Seq<u8>) -> Seq<char> {
    base58_of(kp.subrange(32, 64))
}

/// A keypair and its renderings.
#[derive(Debug)]
pub struct GeneratedKeypair {
    /// The public identifier.
    pub pubkey: String,
    /// The Base58 text of the 32 secret bytes.
    pub secret: String,
    /// The 64 bytes of the keypair: secret half, then public half.
    pub bytes: Vec<u8>,
}

/// The public identifier of the keypair with these 64 bytes.
pub fn pubkey_text(kp: &[u8]) -> (r: String)
    requires
        kp@.len() == 64,
    ensures
        r@ == pubkey_text_of(kp@),
{
    encode_bytes_to_base58(slice_subrange(kp, 32, 64))
}

/// A freshly generated keypair with its public identifier and secret text.
pub fn generate_keypair() -> (r: GeneratedKeypair)
    ensures
        r.bytes@.len() == 64,
        r.pubkey@ == pubkey_text_of(r.bytes@),
        r.secret@ == base58_of(r.bytes@.subrange(0, 32)),
{
    let bytes = random_keypair_bytes();
    let pubkey = pubkey_text(bytes.as_slice());
    let secret = encode_bytes_to_base58(slice_subrange(bytes.as_slice(), 0, 32));
    GeneratedKeypair { pubkey, secret, bytes }
}

} // verus!
