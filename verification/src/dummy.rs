//! Signatures and signers of the runtime: Ed25519, Sr25519 and Ethereum
//! ECDSA, and the accounts that signers stand for.
use vstd::prelude::*;
use crate::codec::{extend_bytes, skip_bytes};
use crate::collections::bytes_eq;
use crate::hash::{blake2b_256, blake2b_digest, keccak256, keccak_digest};
use crate::identity::{
    ed25519_valid, ed25519_verify, ethereum_prefix, recover_prehashed, secp256k1_recovered,
    sr25519_valid, sr25519_verify, EcdsaSignature, RecoveredKey,
};

verus! {

/// A signature of one of the supported schemes.
#[derive(Clone, Copy, Debug, PartialEq, Eq)]
pub enum MultiSignature {
    Ed25519([u8; 64]),
    Sr25519([u8; 64]),
    /// A recoverable secp256k1 signature.
    Ecdsa([u8; 65]),
}

/// A public key of one of the supported schemes; an ECDSA signer is known
/// by its 20-byte address.
#[derive(Clone, Copy, Debug, PartialEq, Eq)]
pub enum MultiSigner {
    Ed25519([u8; 32]),
    Sr25519([u8; 32]),
    Ecdsa([u8; 20]),
}

impl MultiSigner {
    /// The bytes of the key or address.
    pub open spec fn bytes(self) -> Seq<u8> {
        match self {
            MultiSigner::Ed25519(who) => who@,
            MultiSigner::Sr25519(who) => who@,
            MultiSigner::Ecdsa(who) => who@,
        }
    }

    /// The bytes of the key or address.
    pub fn as_ref(&self) -> (r: &[u8])
        ensures
            r@ == self.bytes(),
    {
        match self {
            MultiSigner::Ed25519(who) => who,
            MultiSigner::Sr25519(who) => who,
            MultiSigner::Ecdsa(who) => who,
        }
    }

    /// The account of the signer: the key itself for Ed25519 and Sr25519,
    /// the Blake2b hash of the address for ECDSA.
    pub fn into_account(self) -> (account: [u8; 32])
        ensures
            match self {
                MultiSigner::Ed25519(who) => account == who,
                MultiSigner::Sr25519(who) => account == who,
                MultiSigner::Ecdsa(who) => account == blake2b_digest(who@),
            },
    {
        match self {
            MultiSigner::Ed25519(who) => who,
            MultiSigner::Sr25519(who) => who,
            MultiSigner::Ecdsa(who) => blake2b_256(&who),
        }
    }

    /// The signer whose Ed25519 key is the 32 bytes `x` (any 32 bytes are
    /// taken as a key, unchecked).
    pub fn unchecked_from(x: [u8; 32]) -> (s: MultiSigner)
        ensures
            s == MultiSigner::Ed25519(x),
    {
        MultiSigner::Ed25519(x)
    }

    /// The Ed25519 key, or `Err` for a signer of another scheme.
    pub fn try_into_ed25519(self) -> (r: Result<[u8; 32], ()>)
        ensures
            match self {
                MultiSigner::Ed25519(x) => r == Ok::<[u8; 32], ()>(x),
                _ => r is Err,
            },
    {
        match self {
            MultiSigner::Ed25519(x) => Ok(x),
            _ => Err(()),
        }
    }

    /// The Sr25519 key, or `Err` for a signer of another scheme.
    pub fn try_into_sr25519(self) -> (r: Result<[u8; 32], ()>)
        ensures
            match self {
                MultiSigner::Sr25519(x) => r == Ok::<[u8; 32], ()>(x),
                _ => r is Err,
            },
    {
        match self {
            MultiSigner::Sr25519(x) => Ok(x),
            _ => Err(()),
        }
    }

    /// The ECDSA signer's address, or `Err` for a signer of another scheme.
    pub fn try_into_ecdsa(self) -> (r: Result<[u8; 20], ()>)
        ensures
            match self {
                MultiSigner::Ecdsa(x) => r == Ok::<[u8; 20], ()>(x),
                _ => r is Err,
            },
    {
        match self {
            MultiSigner::Ecdsa(x) => Ok(x),
            _ => Err(()),
        }
    }
}

impl MultiSignature {
    /// The Ed25519 signature, or `Err` for a signature of another scheme.
    pub fn try_into_ed25519(self) -> (r: Result<[u8; 64], ()>)
        ensures
            match self {
                MultiSignature::Ed25519(x) => r == Ok::<[u8; 64], ()>(x),
                _ => r is Err,
            },
    {
        match self {
            MultiSignature::Ed25519(x) => Ok(x),
            _ => Err(()),
        }
    }

    /// The Sr25519 signature, or `Err` for a signature of another scheme.
    pub fn try_into_sr25519(self) -> (r: Result<[u8; 64], ()>)
        ensures
            match self {
                MultiSignature::Sr25519(x) => r == Ok::<[u8; 64], ()>(x),
                _ => r is Err,
            },
    {
        match self {
            MultiSignature::Sr25519(x) => Ok(x),
            _ => Err(()),
        }
    }

    /// The ECDSA signature, or `Err` for a signature of another scheme.
    pub fn try_into_ecdsa(self) -> (r: Result<[u8; 65], ()>)
        ensures
            match self {
                MultiSignature::Ecdsa(x) => r == Ok::<[u8; 65], ()>(x),
                _ => r is Err,
            },
    {
        match self {
            MultiSignature::Ecdsa(x) => Ok(x),
            _ => Err(()),
        }
    }
}

/// The signature with its recovery id brought to 0..=3: Ethereum's
/// recovery ids 27 and above have 27 taken off, as the runtime's
/// `secp256k1_ecdsa_recover` does.
pub open spec fn normalized_recovery(sig: [u8; 65]) -> Seq<u8> {
    sig@.update(64, if sig[64] > 26 { (sig[64] - 27) as u8 } else { sig[64] })
}

/// The account of the Ethereum address of a secp256k1 key: the Blake2b
/// hash of the last 20 bytes of the Keccak hash of the uncompressed key
/// without its tag byte.
pub open spec fn ecdsa_key_account(key: RecoveredKey) -> [u8; 32] {
    blake2b_digest(keccak_digest(key.uncompressed@.subrange(1, 65))@.subrange(12, 32))
}

/// Whether the ECDSA signature `sig` of the Ethereum-prefixed `msg` was
/// made by a key whose address's account is `signer`.
pub open spec fn ecdsa_signed_by(sig: [u8; 65], msg: Seq<u8>, signer: [u8; 32]) -> bool {
    match secp256k1_recovered(keccak_digest(ethereum_prefix() + msg)@, normalized_recovery(sig)) {
        Some(k) => ecdsa_key_account(k) == signer,
        None => false,
    }
}

impl MultiSignature {
    /// Whether the signature is one of `msg` by the account `signer`: an
    /// Ed25519 or Sr25519 signature by the key `signer`, or an ECDSA
    /// signature of the Ethereum-prefixed message whose recovered key has
    /// `signer` as the account of its address.
    pub fn verify(&self, msg: &[u8], signer: &[u8; 32]) -> (b: bool)
        ensures
            self matches MultiSignature::Ed25519(sig) ==> b == ed25519_valid(signer@, sig@, msg@),
            self matches MultiSignature::Sr25519(sig) ==> b == sr25519_valid(signer@, sig@, msg@),
            self matches MultiSignature::Ecdsa(sig) ==> b == ecdsa_signed_by(*sig, msg@, *signer),
    {
        match self {
            MultiSignature::Ed25519(sig) => ed25519_verify(signer, sig, msg),
            MultiSignature::Sr25519(sig) => sr25519_verify(signer, sig, msg),
            MultiSignature::Ecdsa(sig) => {
                let prefix: [u8; 26] = [
                    0x19, 69, 116, 104, 101, 114, 101, 117, 109, 32, 83, 105, 103, 110, 101, 100,
                    32, 77, 101, 115, 115, 97, 103, 101, 58, 10,
                ];
                let mut prefixed_msg: Vec<u8> = Vec::new();
                extend_bytes(&mut prefixed_msg, &prefix);
                extend_bytes(&mut prefixed_msg, msg);
                proof {
                    assert(prefix@ =~= ethereum_prefix());
                }
                let m = keccak256(prefixed_msg.as_slice());
                let mut normalized: [u8; 65] = *sig;
                if sig[64] > 26 {
                    normalized[64] = sig[64] - 27;
                }
                proof {
                    assert(normalized@ =~= normalized_recovery(*sig));
                }
                match recover_prehashed(m, &EcdsaSignature(normalized)) {
                    Some(key) => {
                        let key_bytes = skip_bytes(&key.uncompressed, 1);
                        let hash = keccak256(key_bytes);
                        let address = skip_bytes(&hash, 12);
                        let account = blake2b_256(address);
                        bytes_eq(&account, signer)
                    },
                    None => false,
                }
            },
        }
    }
}

} // verus!
