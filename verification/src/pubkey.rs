//! Addresses of Solana accounts as text. What names a key, and how a key is
//! written, is decided by `solana_program`.

use vstd::prelude::*;
use std::str::FromStr;
use solana_program::pubkey::Pubkey;

verus! {

/// Why a text names no key.
#[derive(Clone, Copy, Debug, PartialEq, Eq, Structural)]
pub enum InvalidAddress {
    /// The text does not stand for 32 bytes.
    WrongSize,
    /// The text is not written in base 58.
    Invalid,
}

/// The key that the text `s` names, as `solana_program` writes it; or why
/// `s` names none.
pub uninterp spec fn pubkey_text(s: Seq<char>) -> Result<Seq<char>, InvalidAddress>;

/// Reads `s` as a key with `Pubkey::from_str` and writes the key back as
/// text, as `Pubkey`'s `Display` does. Trusted: that neither call panics,
/// and that the outcome depends on `s` alone.
#[verifier::external_body]
fn pubkey_from_str(s: &str) -> (r: Result<String, InvalidAddress>)
    ensures
        match r {
            Ok(t) => pubkey_text(s@) == Ok::<Seq<char>, InvalidAddress>(t@),
            Err(e) => pubkey_text(s@) == Err::<Seq<char>, InvalidAddress>(e),
        },
{
    match Pubkey::from_str(s) {
        Ok(key) => Ok(key.to_string()),
        Err(solana_program::pubkey::ParsePubkeyError::WrongSize) => Err(InvalidAddress::WrongSize),
        Err(solana_program::pubkey::ParsePubkeyError::Invalid) => Err(InvalidAddress::Invalid),
    }
}

/// The address that the text `s` holds: the key that it names, written
/// canonically. A text that names no key is an error.
pub fn deserialize(s: &str) -> (r: Result<String, InvalidAddress>)
    ensures
        match r {
            Ok(t) => pubkey_text(s@) == Ok::<Seq<char>, InvalidAddress>(t@),
            Err(e) => pubkey_text(s@) == Err::<Seq<char>, InvalidAddress>(e),
        },
{
    pubkey_from_str(s)
}

} // verus!
