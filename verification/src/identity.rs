//! Identities of users on other chains and their authentication: an
//! identity is proved by a signature over a message, made with an Ethereum
//! or generic ECDSA key, an Ed25519 key or an Sr25519 key.
use vstd::prelude::*;
use crate::codec::{extend_bytes, skip_bytes, take_array};
use crate::collections::slice_eq;
use crate::hash::{keccak256, keccak_digest};
use crate::requests::{lemma_array_of_view, spec_array};

verus! {

/// An address or public key.
#[derive(Clone, Copy, Debug, PartialEq, Eq)]
pub enum Identity {
    Address20([u8; 20]),
    Address32([u8; 32]),
    Other([u8; 64]),
}

/// A recoverable ECDSA signature: 64 compact bytes and the recovery id.
#[derive(Clone, Copy, Debug, PartialEq, Eq)]
pub struct EcdsaSignature(pub [u8; 65]);

/// An Ed25519 signature.
#[derive(Clone, Copy, Debug, PartialEq, Eq)]
pub struct Ed25519Signature(pub [u8; 64]);

/// An Sr25519 (Schnorr over Ristretto) signature.
#[derive(Clone, Copy, Debug, PartialEq, Eq)]
pub struct Sr25519Signature(pub [u8; 64]);

/// An identity with the signature that authenticates it.
#[derive(Clone, Copy, Debug, PartialEq, Eq)]
pub enum IdentityWithAuth {
    Ecdsa(Identity, EcdsaSignature),
    Ed25519(Identity, Ed25519Signature),
    Sr25519(Identity, Sr25519Signature),
    Other(Identity, [u8; 64]),
}

/// A secp256k1 public key in its compressed and uncompressed SEC1 forms.
#[derive(Clone, Copy, Debug)]
pub struct RecoveredKey {
    pub compressed: [u8; 33],
    pub uncompressed: [u8; 65],
}

impl Identity {
    /// The bytes of the identity.
    pub open spec fn bytes(self) -> Seq<u8> {
        match self {
            Identity::Address20(x) => x@,
            Identity::Address32(x) => x@,
            Identity::Other(x) => x@,
        }
    }

    /// The bytes of the identity.
    pub fn as_ref(&self) -> (r: &[u8])
        ensures
            r@ == self.bytes(),
    {
        match self {
            Identity::Address20(x) => x,
            Identity::Address32(x) => x,
            Identity::Other(x) => x,
        }
    }

    /// The identity whose bytes are `b`: its length, 20, 32 or 64, picks
    /// the variant.
    pub open spec fn spec_from_bytes(b: Seq<u8>) -> Option<Identity> {
        if b.len() == 20 {
            Some(Identity::Address20(spec_array(b)))
        } else if b.len() == 32 {
            Some(Identity::Address32(spec_array(b)))
        } else if b.len() == 64 {
            Some(Identity::Other(spec_array(b)))
        } else {
            None
        }
    }

    /// The identity whose bytes are `b`, or `None` when `b` is not 20, 32
    /// or 64 bytes long.
    pub fn from_bytes(b: &[u8]) -> (r: Option<Identity>)
        ensures
            r == Self::spec_from_bytes(b@),
            r matches Some(id) ==> id.bytes() == b@,
    {
        if b.len() == 20 {
            let a: [u8; 20] = take_array(b);
            proof {
                assert(a@ =~= b@);
                crate::requests::lemma_spec_array(a, b@);
            }
            Some(Identity::Address20(a))
        } else if b.len() == 32 {
            let a: [u8; 32] = take_array(b);
            proof {
                assert(a@ =~= b@);
                crate::requests::lemma_spec_array(a, b@);
            }
            Some(Identity::Address32(a))
        } else if b.len() == 64 {
            let a: [u8; 64] = take_array(b);
            proof {
                assert(a@ =~= b@);
                crate::requests::lemma_spec_array(a, b@);
            }
            Some(Identity::Other(a))
        } else {
            None
        }
    }

    /// The position of the variant: 0, 1 or 2.
    pub open spec fn variant(self) -> nat {
        match self {
            Identity::Address20(_) => 0,
            Identity::Address32(_) => 1,
            Identity::Other(_) => 2,
        }
    }
}

/// Reading back the bytes of an identity gives the identity.
pub proof fn law_identity_bytes_roundtrip(id: Identity)
    ensures
        Identity::spec_from_bytes(id.bytes()) == Some(id),
{
    match id {
        Identity::Address20(x) => lemma_array_of_view(x),
        Identity::Address32(x) => lemma_array_of_view(x),
        Identity::Other(x) => lemma_array_of_view(x),
    }
}

impl IdentityWithAuth {
    /// The identity that is authenticated.
    pub open spec fn spec_identity(self) -> Identity {
        match self {
            IdentityWithAuth::Ecdsa(id, _) => id,
            IdentityWithAuth::Ed25519(id, _) => id,
            IdentityWithAuth::Sr25519(id, _) => id,
            IdentityWithAuth::Other(id, _) => id,
        }
    }

    /// Whether the signature authenticates the identity for `msg`:
    /// - an Ethereum address (20 bytes) with an ECDSA signature of the
    ///   Ethereum-prefixed message: the last 20 bytes of the Keccak hash of
    ///   the recovered uncompressed key (without its tag byte) are the
    ///   address;
    /// - a 32-byte ECDSA identity with a signature of a 32-byte prehashed
    ///   message: the recovered compressed key without its tag byte is the
    ///   identity;
    /// - a 32-byte Ed25519 or Sr25519 key: the signature verifies;
    /// - an `Other` identity with other authentication: always;
    /// - any other combination: never.
    pub open spec fn spec_verify(self, msg: Seq<u8>) -> bool {
        match self {
            IdentityWithAuth::Ecdsa(Identity::Address20(address), sig) => match secp256k1_recovered(
                eth_message_hash(msg)@,
                sig.0@,
            ) {
                Some(k) => keccak_digest(k.uncompressed@.subrange(1, 65))@.subrange(12, 32)
                    == address@,
                None => false,
            },
            IdentityWithAuth::Ecdsa(Identity::Address32(address), sig) => msg.len() == 32 && match secp256k1_recovered(
                msg,
                sig.0@,
            ) {
                Some(k) => k.compressed@.subrange(1, 33) == address@,
                None => false,
            },
            IdentityWithAuth::Ed25519(Identity::Address32(pubkey), sig) => ed25519_valid(
                pubkey@,
                sig.0@,
                msg,
            ),
            IdentityWithAuth::Sr25519(Identity::Address32(pubkey), sig) => sr25519_valid(
                pubkey@,
                sig.0@,
                msg,
            ),
            IdentityWithAuth::Other(Identity::Other(_), _) => true,
            _ => false,
        }
    }

    /// Whether the signature authenticates the identity for `msg` (see
    /// `spec_verify`).
    pub fn verify(&self, msg: &[u8]) -> (b: bool)
        ensures
            b == self.spec_verify(msg@),
    {
        match self {
            IdentityWithAuth::Ecdsa(Identity::Address20(address), sig) => {
                let prehashed_msg = eth_hash_message(msg);
                let recovered = match recover_prehashed(prehashed_msg, sig) {
                    Some(k) => k,
                    None => {
                        return false;
                    },
                };
                let key_bytes = skip_bytes(&recovered.uncompressed, 1);
                let hash = keccak256(key_bytes);
                let tail = skip_bytes(&hash, 12);
                slice_eq(tail, address)
            },
            IdentityWithAuth::Ecdsa(Identity::Address32(address), sig) => {
                if msg.len() != 32 {
                    return false;
                }
                let prehashed_msg: [u8; 32] = take_array(msg);
                proof {
                    assert(prehashed_msg@ =~= msg@);
                }
                let recovered = match recover_prehashed(prehashed_msg, sig) {
                    Some(k) => k,
                    None => {
                        return false;
                    },
                };
                let key_bytes = skip_bytes(&recovered.compressed, 1);
                slice_eq(key_bytes, address)
            },
            IdentityWithAuth::Ed25519(Identity::Address32(pubkey), sig) => ed25519_verify(
                pubkey,
                &sig.0,
                msg,
            ),
            IdentityWithAuth::Sr25519(Identity::Address32(pubkey), sig) => sr25519_verify(
                pubkey,
                &sig.0,
                msg,
            ),
            IdentityWithAuth::Other(Identity::Other(_), _) => true,
            _ => false,
        }
    }
}

impl From<IdentityWithAuth> for Identity {
    fn from(id_with_auth: IdentityWithAuth) -> (id: Identity) {
        match id_with_auth {
            IdentityWithAuth::Ecdsa(id, _) => id,
            IdentityWithAuth::Ed25519(id, _) => id,
            IdentityWithAuth::Sr25519(id, _) => id,
            IdentityWithAuth::Other(id, _) => id,
        }
    }
}

impl vstd::std_specs::convert::FromSpecImpl<IdentityWithAuth> for Identity {
    open spec fn obeys_from_spec() -> bool {
        true
    }

    open spec fn from_spec(id_with_auth: IdentityWithAuth) -> Identity {
        id_with_auth.spec_identity()
    }
}


impl<'a> From<&'a IdentityWithAuth> for Identity {
    fn from(id_with_auth: &'a IdentityWithAuth) -> (id: Identity) {
        match id_with_auth {
            IdentityWithAuth::Ecdsa(id, _) => *id,
            IdentityWithAuth::Ed25519(id, _) => *id,
            IdentityWithAuth::Sr25519(id, _) => *id,
            IdentityWithAuth::Other(id, _) => *id,
        }
    }
}

impl<'a> vstd::std_specs::convert::FromSpecImpl<&'a IdentityWithAuth> for Identity {
    open spec fn obeys_from_spec() -> bool {
        true
    }

    open spec fn from_spec(id_with_auth: &'a IdentityWithAuth) -> Identity {
        id_with_auth.spec_identity()
    }
}

/// The public key that signed the 32-byte `message` with the recoverable
/// `signature`, if one can be recovered.
pub uninterp spec fn secp256k1_recovered(message: Seq<u8>, signature: Seq<u8>) -> Option<RecoveredKey>;

/// Whether `signature` is a valid Ed25519 signature of `msg` by `pubkey`.
pub uninterp spec fn ed25519_valid(pubkey: Seq<u8>, signature: Seq<u8>, msg: Seq<u8>) -> bool;

/// Whether `signature` is a valid Sr25519 signature of `msg` by `pubkey` in
/// the `substrate` signing context.
pub uninterp spec fn sr25519_valid(pubkey: Seq<u8>, signature: Seq<u8>, msg: Seq<u8>) -> bool;

/// Recovers the public key that signed the 32-byte `message`, with
/// `secp256k1` (`RecoveryId::from_i32`, `RecoverableSignature::from_compact`,
/// `Secp256k1::recover_ecdsa`). The result is a function of the message and
/// the signature; a recovery id above 3 is refused (`RecoveryId::from_i32`
/// accepts 0 to 3 only).
#[verifier::external_body]
pub fn recover_prehashed(message: [u8; 32], signature: &EcdsaSignature) -> (r: Option<RecoveredKey>)
    ensures
        r == secp256k1_recovered(message@, signature.0@),
        signature.0[64] > 3 ==> r is None,
{
    let rid = secp256k1::ecdsa::RecoveryId::from_i32(signature.0[64] as i32).ok()?;
    let sig = secp256k1::ecdsa::RecoverableSignature::from_compact(&signature.0[..64], rid).ok()?;
    let message = secp256k1::Message::from_slice(&message).ok()?;
    let key = secp256k1::Secp256k1::verification_only().recover_ecdsa(&message, &sig).ok()?;
    Some(RecoveredKey { compressed: key.serialize(), uncompressed: key.serialize_uncompressed() })
}

/// Verifies an Ed25519 signature with `ed25519_zebra`
/// (`VerificationKey::try_from`, `Signature::try_from`,
/// `VerificationKey::verify`); a key that does not decode fails.
#[verifier::external_body]
pub(crate) fn ed25519_verify(pubkey: &[u8; 32], signature: &[u8; 64], msg: &[u8]) -> (b: bool)
    ensures
        b == ed25519_valid(pubkey@, signature@, msg@),
{
    let Ok(key) = ed25519_zebra::VerificationKey::try_from(&pubkey[..]) else { return false };
    let Ok(sig) = ed25519_zebra::Signature::try_from(&signature[..]) else { return false };
    key.verify(&sig, msg).is_ok()
}

/// Verifies an Sr25519 signature in the `substrate` context with
/// `schnorrkel` (`PublicKey::from_bytes`, `Signature::from_bytes`,
/// `PublicKey::verify_simple`); a key or signature that does not decode
/// fails.
#[verifier::external_body]
pub(crate) fn sr25519_verify(pubkey: &[u8; 32], signature: &[u8; 64], msg: &[u8]) -> (b: bool)
    ensures
        b == sr25519_valid(pubkey@, signature@, msg@),
{
    let Ok(key) = schnorrkel::PublicKey::from_bytes(&pubkey[..]) else { return false };
    let Ok(sig) = schnorrkel::Signature::from_bytes(&signature[..]) else { return false };
    key.verify_simple(b"substrate", msg, &sig).is_ok()
}

/// The bytes of `\x19Ethereum Signed Message:\n`.
pub open spec fn ethereum_prefix() -> Seq<u8> {
    seq![
        0x19u8, 69u8, 116u8, 104u8, 101u8, 114u8, 101u8, 117u8, 109u8, 32u8, 83u8, 105u8, 103u8,
        110u8, 101u8, 100u8, 32u8, 77u8, 101u8, 115u8, 115u8, 97u8, 103u8, 101u8, 58u8, 10u8,
    ]
}

/// The decimal digits of `n`, most significant first, in ASCII.
pub open spec fn decimal(n: nat) -> Seq<u8>
    decreases n,
{
    if n < 10 {
        seq![(48 + n) as u8]
    } else {
        decimal(n / 10).push((48 + n % 10) as u8)
    }
}

/// The decimal digits of `n` in ASCII.
pub fn decimal_bytes(n: usize) -> (r: Vec<u8>)
    ensures
        r@ == decimal(n as nat),
    decreases n,
{
    if n < 10 {
        let mut r: Vec<u8> = Vec::new();
        r.push(48u8 + n as u8);
        proof {
            assert(r@ =~= decimal(n as nat));
        }
        r
    } else {
        let mut r = decimal_bytes(n / 10);
        r.push(48u8 + (n % 10) as u8);
        r
    }
}

/// The hash that Ethereum signs for `message`.
pub open spec fn eth_message_hash(message: Seq<u8>) -> [u8; 32] {
    keccak_digest(ethereum_prefix() + decimal(message.len()) + message)
}

/// The Keccak hash of `message` behind the Ethereum prefix and the decimal
/// length of the message, as Ethereum wallets sign it.
pub fn eth_hash_message(message: &[u8]) -> (h: [u8; 32])
    ensures
        h == eth_message_hash(message@),
{
    let prefix: [u8; 26] = [
        0x19, 69, 116, 104, 101, 114, 101, 117, 109, 32, 83, 105, 103, 110, 101, 100, 32, 77,
        101, 115, 115, 97, 103, 101, 58, 10,
    ];
    let mut eth_message: Vec<u8> = Vec::new();
    extend_bytes(&mut eth_message, &prefix);
    let digits = decimal_bytes(message.len());
    extend_bytes(&mut eth_message, digits.as_slice());
    extend_bytes(&mut eth_message, message);
    proof {
        assert(prefix@ =~= ethereum_prefix());
    }
    keccak256(eth_message.as_slice())
}

} // verus!
