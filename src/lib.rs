//! Key utilities for an ed25519-based ledger: Base58 conversion, parsing of
//! byte-list text, keypair generation and a multi-worker "vanity" search for
//! keys whose public identifier starts or ends with chosen text.

pub mod base58;
pub mod byte_list;
pub mod grind;
pub mod keypair;
pub mod matching;
