//! Small helpers: the registration message, variant comparison of
//! identities and the account of an EVM address.
use vstd::prelude::*;
use crate::codec::extend_bytes;
use crate::hash::{blake2256, blake2s_digest};
use crate::identity::Identity;

verus! {

/// The lowercase hexadecimal digit of `d` (below 16), in ASCII.
pub open spec fn hex_digit(d: u8) -> char {
    if d < 10 {
        (48 + d) as char
    } else {
        (87 + d) as char
    }
}

/// The lowercase hexadecimal encoding of `b`, two digits per byte.
pub open spec fn hex_chars(b: Seq<u8>) -> Seq<char>
    decreases b.len(),
{
    if b.len() == 0 {
        Seq::empty()
    } else {
        hex_chars(b.drop_last()) + seq![hex_digit(b.last() / 16), hex_digit(b.last() % 16)]
    }
}

/// Lowercase hexadecimal encoding of `bytes` (`hex::encode`).
#[verifier::external_body]
fn hex_encode(bytes: &[u8]) -> (s: String)
    ensures
        s@ == hex_chars(bytes@),
{
    hex::encode(bytes)
}

/// The text of `Guild Network registration id: `.
pub open spec fn registration_prefix() -> Seq<char> {
    "Guild Network registration id: "@
}

/// The message that a user signs to register: the registration prefix
/// followed by the hexadecimal encoding of the encoded account id.
pub fn verification_msg(encoded_id: &[u8]) -> (msg: String)
    ensures
        msg@ == registration_prefix() + hex_chars(encoded_id@),
{
    let hex = hex_encode(encoded_id);
    String::from_str("Guild Network registration id: ").concat(hex.as_str())
}

/// Whether two identities are of the same variant.
pub fn matches_variant(a: &Identity, b: &Identity) -> (r: bool)
    ensures
        r == (a.variant() == b.variant()),
{
    match (a, b) {
        (Identity::Address20(_), Identity::Address20(_)) => true,
        (Identity::Address32(_), Identity::Address32(_)) => true,
        (Identity::Other(_), Identity::Other(_)) => true,
        _ => false,
    }
}

/// The bytes of `evm:`.
pub open spec fn evm_prefix() -> Seq<u8> {
    seq![101u8, 118u8, 109u8, 58u8]
}

/// The account of an EVM address: the Blake2 hash of `evm:` followed by the
/// address.
pub fn evm_to_account(evm_address: [u8; 20]) -> (account: [u8; 32])
    ensures
        account == blake2s_digest(evm_prefix() + evm_address@),
{
    let prefix: [u8; 4] = [101, 118, 109, 58];
    let mut address: Vec<u8> = Vec::new();
    extend_bytes(&mut address, &prefix);
    extend_bytes(&mut address, &evm_address);
    proof {
        assert(prefix@ =~= evm_prefix());
    }
    blake2256(address.as_slice())
}

} // verus!
