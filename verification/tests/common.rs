use guild_network::allowlist::Allowlist;
use guild_network::chains::EvmChain;
use blake2::Digest;
use guild_network::common::offchain_allowlist_key;
use guild_network::dummy::{MultiSignature, MultiSigner};
use guild_network::hash::{blake2256, keccak256};
use guild_network::identity::{
    eth_hash_message, recover_prehashed, EcdsaSignature, Ed25519Signature, Identity, IdentityWithAuth,
    Sr25519Signature,
};
use guild_network::requests::{AccessCheckRequest, LinkIdentityRequest};
use guild_network::pad::{pad_to_n_bytes, padded_id, unpad_from_n_bytes};
use guild_network::utils::{evm_to_account, matches_variant, verification_msg};
use parity_scale_codec::Encode;
use serde::de::Error as _;
use serde::{Deserialize, Deserializer, Serialize, Serializer};
use serde_test::{assert_tokens, Token};

const TEST_ACCOUNT: &str = "test-account-0xabcde";

fn test_msg() -> String {
    verification_msg(&TEST_ACCOUNT.encode())
}

// ------------------------------------------------------------------ pad

#[test]
fn pad_works() {
    let input = "hello";
    let padded = pad_to_n_bytes::<10>(input.as_bytes());
    assert_eq!(&padded[..5], input.as_bytes());
    assert_eq!(&padded[5..], &[0u8; 5]);

    let input = "";
    let padded = pad_to_n_bytes::<1>(input.as_bytes());
    assert_eq!(padded, [0u8]);

    let padded = pad_to_n_bytes::<0>(input.as_bytes());
    assert_eq!(&padded, input.as_bytes());

    let input = "this stuff here is 32 bytes long";
    let padded = pad_to_n_bytes::<32>(input.as_bytes());
    assert_eq!(&padded, input.as_bytes());
}

#[test]
fn unpad_works() {
    let input = "hello";
    let round_trip = unpad_from_n_bytes(&pad_to_n_bytes::<10>(input.as_bytes()));
    assert_eq!(input, round_trip);

    let input = "";
    let round_trip = unpad_from_n_bytes(&pad_to_n_bytes::<2>(input.as_bytes()));
    assert_eq!(input, round_trip);

    let input = "this is very nice";
    let round_trip = unpad_from_n_bytes(&pad_to_n_bytes::<32>(input.as_bytes()));
    assert_eq!(input, round_trip);

    let input = "some é ö ü #$!";
    let round_trip = unpad_from_n_bytes(&pad_to_n_bytes::<64>(input.as_bytes()));
    assert_ne!(input, round_trip);
}

#[test]
fn unpad_stops_at_first_zero() {
    let input = [104u8, 105, 0, 106, 0];
    assert_eq!(unpad_from_n_bytes(&input), "hi");
    assert_eq!(unpad_from_n_bytes(&[0u8; 4]), "");
    assert_eq!(unpad_from_n_bytes(&[0xe9u8, 0]), "é");
}

#[test]
fn padded_id_layout() {
    let id = padded_id(b"discord", 0x0102030405060708);
    assert_eq!(&id[..7], b"discord");
    assert_eq!(&id[7..15], &[8, 7, 6, 5, 4, 3, 2, 1]);
    assert_eq!(&id[15..], &[0u8; 49]);
}

// ------------------------------------------------------------- identity

fn check_conversions(id: Identity) {
    let id_with_auth = IdentityWithAuth::Ecdsa(id, EcdsaSignature([0u8; 65]));
    assert_eq!(id, (&id_with_auth).into());
    assert_eq!(id, id_with_auth.into());
    let id_with_auth = IdentityWithAuth::Ed25519(id, Ed25519Signature([0u8; 64]));
    assert_eq!(id, (&id_with_auth).into());
    assert_eq!(id, id_with_auth.into());
    let id_with_auth = IdentityWithAuth::Sr25519(id, Sr25519Signature([0u8; 64]));
    assert_eq!(id, (&id_with_auth).into());
    assert_eq!(id, id_with_auth.into());
    let id_with_auth = IdentityWithAuth::Other(id, [0u8; 64]);
    assert_eq!(id, (&id_with_auth).into());
    assert_eq!(id, id_with_auth.into());
}

#[test]
fn conversions() {
    check_conversions(Identity::Address20([0u8; 20]));
    check_conversions(Identity::Address32([0u8; 32]));
    check_conversions(Identity::Other([0u8; 64]));
}

/// An identity serialized as its bytes, read back by their length.
#[derive(Debug, PartialEq)]
struct SerdeIdentity(Identity);

impl Serialize for SerdeIdentity {
    fn serialize<S: Serializer>(&self, serializer: S) -> Result<S::Ok, S::Error> {
        serializer.serialize_bytes(self.0.as_ref())
    }
}

impl<'de> Deserialize<'de> for SerdeIdentity {
    fn deserialize<D: Deserializer<'de>>(deserializer: D) -> Result<Self, D::Error> {
        let b = <serde_bytes::ByteBuf>::deserialize(deserializer)?;
        match Identity::from_bytes(b.as_ref()) {
            Some(id) => Ok(SerdeIdentity(id)),
            None => Err(D::Error::invalid_length(b.len(), &"20, 32 or 64")),
        }
    }
}

fn check_serde(id: Identity, bytes: &'static [u8]) {
    let id = SerdeIdentity(id);
    let expected = Token::BorrowedBytes(bytes);
    assert_tokens(&id, &[expected]);

    let serialized = serde_json::to_vec(&id).unwrap();
    assert_eq!(serde_json::from_slice::<SerdeIdentity>(&serialized).unwrap(), id);
}

#[test]
fn serde_roundtrip() {
    check_serde(Identity::Address20([0u8; 20]), &[0u8; 20]);
    check_serde(Identity::Address32([0u8; 32]), &[0u8; 32]);
    check_serde(Identity::Other([0u8; 64]), &[0u8; 64]);
}

#[test]
fn from_bytes_reads_back_as_ref() {
    let ids = [Identity::Address20([7u8; 20]), Identity::Address32([8u8; 32]), Identity::Other([9u8; 64])];
    for id in ids {
        assert_eq!(Identity::from_bytes(id.as_ref()), Some(id));
    }
    assert_eq!(Identity::from_bytes(&[1u8; 21]), None);
    assert_eq!(Identity::from_bytes(&[]), None);
}

#[test]
fn test_eth_msg_hashing() {
    let msg = test_msg();
    let eth_hashed_msg = eth_hash_message(msg.as_bytes());
    assert_eq!(ethers_core::utils::hash_message(&msg).as_bytes(), eth_hashed_msg);
}

#[test]
fn generic_edwards() {
    let msg = test_msg();
    let seed = [2u8; 32];
    let signer = ed25519_zebra::SigningKey::from(seed);
    let public: [u8; 32] = ed25519_zebra::VerificationKey::from(&signer).into();

    let signature = Ed25519Signature(signer.sign(msg.as_bytes()).into());
    let address = Identity::Address32(public);
    let id_with_auth = IdentityWithAuth::Ed25519(address, signature);

    assert!(id_with_auth.verify(msg.as_bytes()));
    assert!(!id_with_auth.verify(b"wrong msg"));
}

#[test]
fn generic_ristretto() {
    let msg = test_msg();
    let seed = [2u8; 32];
    let signer = schnorrkel::MiniSecretKey::from_bytes(&seed)
        .unwrap()
        .expand_to_keypair(schnorrkel::ExpansionMode::Ed25519);

    let signature = Sr25519Signature(signer.sign_simple(b"substrate", msg.as_bytes()).to_bytes());
    let address = Identity::Address32(signer.public.to_bytes());
    let id_with_auth = IdentityWithAuth::Sr25519(address, signature);

    assert!(id_with_auth.verify(msg.as_bytes()));
    assert!(!id_with_auth.verify(b"wrong msg"));
}

fn ecdsa_sign(seed: [u8; 32], prehashed: [u8; 32]) -> ([u8; 65], [u8; 65]) {
    let secp = secp256k1::Secp256k1::new();
    let secret = secp256k1::SecretKey::from_slice(&seed).unwrap();
    let public = secp256k1::PublicKey::from_secret_key(&secp, &secret);
    let message = secp256k1::Message::from_slice(&prehashed).unwrap();
    let (rid, compact) = secp.sign_ecdsa_recoverable(&message, &secret).serialize_compact();
    let mut signature = [0u8; 65];
    signature[..64].copy_from_slice(&compact);
    signature[64] = rid.to_i32() as u8;
    (signature, public.serialize_uncompressed())
}

#[test]
fn ethereum_ecdsa_signature() {
    let msg = test_msg();
    let (signature, public) = ecdsa_sign([2u8; 32], eth_hash_message(msg.as_bytes()));
    let mut address = [0u8; 20];
    address.copy_from_slice(&keccak256(&public[1..])[12..]);
    let id_with_auth = IdentityWithAuth::Ecdsa(Identity::Address20(address), EcdsaSignature(signature));
    assert!(id_with_auth.verify(msg.as_bytes()));
    assert!(!id_with_auth.verify(b"wrong msg"));
}

#[test]
fn prehashed_ecdsa_signature() {
    let prehashed = keccak256(test_msg().as_bytes());
    let secp = secp256k1::Secp256k1::new();
    let secret = secp256k1::SecretKey::from_slice(&[2u8; 32]).unwrap();
    let compressed = secp256k1::PublicKey::from_secret_key(&secp, &secret).serialize();
    let (signature, _) = ecdsa_sign([2u8; 32], prehashed);
    let mut id = [0u8; 32];
    id.copy_from_slice(&compressed[1..]);
    let id_with_auth = IdentityWithAuth::Ecdsa(Identity::Address32(id), EcdsaSignature(signature));
    assert!(id_with_auth.verify(&prehashed));
    // doesn't work with the original message
    assert!(!id_with_auth.verify(test_msg().as_bytes()));
    let recovered = recover_prehashed(prehashed, &EcdsaSignature(signature)).unwrap();
    assert_eq!(recovered.compressed, compressed);
    let mut bad_id = signature;
    bad_id[64] = 4;
    assert!(recover_prehashed(prehashed, &EcdsaSignature(bad_id)).is_none());
}

#[test]
fn other_identities() {
    let id_with_auth = IdentityWithAuth::Other(Identity::Other([0u8; 64]), [0u8; 64]);
    assert!(id_with_auth.verify(b""));
    let id_with_auth = IdentityWithAuth::Other(Identity::Address20([0u8; 20]), [0u8; 64]);
    assert!(!id_with_auth.verify(b""));
    let id_with_auth = IdentityWithAuth::Other(Identity::Address32([0u8; 32]), [0u8; 64]);
    assert!(!id_with_auth.verify(b""));
}

#[test]
fn invalid_crypto_signatures() {
    let address = Identity::Address20([0u8; 20]);
    let signature = Ed25519Signature([0u8; 64]);
    let id_with_auth = IdentityWithAuth::Ed25519(address, signature);
    assert!(!id_with_auth.verify(b""));

    let address = Identity::Address20([0u8; 20]);
    let signature = Sr25519Signature([0u8; 64]);
    let id_with_auth = IdentityWithAuth::Sr25519(address, signature);
    assert!(!id_with_auth.verify(b""));

    let address = Identity::Address32([0u8; 32]);
    let signature = EcdsaSignature([0u8; 65]);
    let id_with_auth = IdentityWithAuth::Ecdsa(address, signature);
    assert!(!id_with_auth.verify(b""));
}

// ---------------------------------------------------------------- utils

#[test]
fn verification_msg_is_prefixed_hex() {
    assert_eq!(verification_msg(&[0x0a, 0xff, 0x00]), "Guild Network registration id: 0aff00");
    assert_eq!(verification_msg(&[]), "Guild Network registration id: ");
    let expected = format!("Guild Network registration id: {}", hex::encode(TEST_ACCOUNT.encode()));
    assert_eq!(test_msg(), expected);
}

#[test]
fn variants_match() {
    assert!(matches_variant(&Identity::Address20([1u8; 20]), &Identity::Address20([0u8; 20])));
    assert!(!matches_variant(&Identity::Address20([1u8; 20]), &Identity::Address32([1u8; 32])));
    assert!(matches_variant(&Identity::Other([1u8; 64]), &Identity::Other([2u8; 64])));
}

#[test]
fn evm_account_is_prefixed_blake2() {
    let address = [3u8; 20];
    let mut prefixed = b"evm:".to_vec();
    prefixed.extend_from_slice(&address);
    assert_eq!(evm_to_account(address), blake2256(&prefixed));
    assert_ne!(evm_to_account(address), evm_to_account([4u8; 20]));
}

#[test]
fn hashes_are_the_standard_ones() {
    // Keccak-256 of the empty input
    assert_eq!(
        hex::encode(keccak256(b"")),
        "c5d2460186f7233c927e7db2dcc703c0e500b653ca82273b7bfad8045d85a470"
    );
    // Blake2s-256 of "abc"
    assert_eq!(
        hex::encode(blake2256(b"abc")),
        "508c5e8c327c14e2e1a72ba34eeb452f37458b209ed63a294d999b4c86675982"
    );
}

#[test]
fn offchain_key_is_prefixed() {
    let key = offchain_allowlist_key(&[1, 2, 3]);
    assert_eq!(key, b"guild-allowlist\x01\x02\x03".to_vec());
}

#[test]
fn is_member() {
    let allowlist = Allowlist(vec![0, 2]);

    assert!(allowlist.is_member(&0));
    assert!(!allowlist.is_member(&1));
    assert!(allowlist.is_member(&2));
}

#[test]
fn allowlist_from_vec() {
    let allowlist: Allowlist<u64> = vec![5u64].into();
    assert!(allowlist.is_member(&5));
    assert!(!Allowlist::new(Vec::<u64>::new()).is_member(&5));
}

#[test]
fn evm_chain_ids() {
    assert_eq!(EvmChain::Ethereum.chain_id(), 1);
    assert_eq!(EvmChain::Bsc.chain_id(), 56);
    assert_eq!(EvmChain::Gnosis.chain_id(), 100);
    assert_eq!(EvmChain::Polygon.chain_id(), 137);
}

// ---------------------------------------------------------------- dummy

#[test]
fn multi_signature_verification() {
    let msg = b"some message";
    let signer = ed25519_zebra::SigningKey::from([3u8; 32]);
    let public: [u8; 32] = ed25519_zebra::VerificationKey::from(&signer).into();
    let sig = MultiSignature::Ed25519(signer.sign(msg).into());
    assert!(sig.verify(msg, &public));
    assert!(!sig.verify(b"other", &public));

    let keypair = schnorrkel::MiniSecretKey::from_bytes(&[4u8; 32])
        .unwrap()
        .expand_to_keypair(schnorrkel::ExpansionMode::Ed25519);
    let sig = MultiSignature::Sr25519(keypair.sign_simple(b"substrate", msg).to_bytes());
    assert!(sig.verify(msg, &keypair.public.to_bytes()));
    assert!(!sig.verify(msg, &public));

    // an ECDSA signature verifies for the account of the signing key's address
    let mut prefixed = b"\x19Ethereum Signed Message:\n".to_vec();
    prefixed.extend_from_slice(msg);
    let (signature, uncompressed) = ecdsa_sign([5u8; 32], keccak256(&prefixed));
    let mut address = [0u8; 20];
    address.copy_from_slice(&keccak256(&uncompressed[1..])[12..]);
    let account = MultiSigner::Ecdsa(address).into_account();
    let ecdsa = MultiSignature::Ecdsa(signature);
    assert!(ecdsa.verify(msg, &account));
    assert!(!ecdsa.verify(b"other", &account));
    assert!(!ecdsa.verify(msg, &[0u8; 32]));
    // Ethereum's recovery ids 27 and 28 are accepted as 0 and 1
    let mut eth_signature = signature;
    eth_signature[64] += 27;
    assert!(MultiSignature::Ecdsa(eth_signature).verify(msg, &account));
    // a recovery id out of range recovers no key
    let mut bad_signature = signature;
    bad_signature[64] = 9;
    assert!(!MultiSignature::Ecdsa(bad_signature).verify(msg, &account));

    assert_eq!(MultiSigner::Ed25519(public).into_account(), public);
    assert_eq!(MultiSigner::Sr25519([7u8; 32]).into_account(), [7u8; 32]);
    let expected: [u8; 32] = blake2::Blake2b::<blake2::digest::consts::U32>::digest([9u8; 20]).into();
    assert_eq!(MultiSigner::Ecdsa([9u8; 20]).into_account(), expected);
    assert_eq!(MultiSigner::Ecdsa([9u8; 20]).as_ref(), &[9u8; 20]);
}

// ------------------------------------------------------------- requests

#[test]
fn requests_decode_what_was_encoded() {
    let link = LinkIdentityRequest { requester: 0x0102, prefix: [7u8; 8], identity: [9u8; 32] };
    let bytes = link.encode();
    assert_eq!(bytes.len(), 48);
    assert_eq!(&bytes[..8], &0x0102u64.to_le_bytes());
    assert_eq!(LinkIdentityRequest::decode(&bytes), Some(link));
    assert_eq!(LinkIdentityRequest::decode(&bytes[..47]), None);

    let access = AccessCheckRequest { requester: 1, account: 2, guild_name: [3u8; 32], role_name: [4u8; 32] };
    let bytes = access.encode();
    assert_eq!(bytes.len(), 80);
    assert_eq!(AccessCheckRequest::decode(&bytes), Some(access));
    assert_eq!(AccessCheckRequest::decode(&bytes[..79]), None);
    // the same layout as the SCALE encoding of the fields
    let scale = (1u64, 2u64, [3u8; 32], [4u8; 32]).encode();
    assert_eq!(bytes, scale);
}

// ---------------------------------------------------------- storage maps

#[test]
fn storage_maps_list_entries_by_rank() {
    let mut m: guild_network::collections::StorageMap<u64, u8> = guild_network::collections::StorageMap::new();
    m.insert(30, 3);
    m.insert(10, 1);
    m.insert(20, 2);
    m.insert(10, 4);
    assert_eq!(m.keys(), vec![10, 20, 30]);
    assert_eq!(m.values(), vec![4, 2, 3]);
    assert_eq!(m.remove(&20), Some(2));
    assert_eq!(m.remove(&20), None);
    assert_eq!(m.len(), 2);

    let mut prefixes: guild_network::collections::StorageMap<[u8; 8], u8> = guild_network::collections::StorageMap::new();
    prefixes.insert([0, 0, 0, 0, 0, 0, 1, 0], 2);
    prefixes.insert([0, 0, 0, 0, 0, 0, 0, 9], 1);
    prefixes.insert([1, 0, 0, 0, 0, 0, 0, 0], 3);
    assert_eq!(prefixes.values(), vec![1, 2, 3]);

    // keys without a rank keep the order of insertion
    let mut pairs: guild_network::collections::StorageMap<(u64, u64), u8> = guild_network::collections::StorageMap::new();
    pairs.insert((5, 5), 1);
    pairs.insert((1, 1), 2);
    assert_eq!(pairs.keys(), vec![(5, 5), (1, 1)]);
    assert!(pairs.contains_key(&(1, 1)));
    assert_eq!(pairs.get(&(5, 5)), Some(&1));
}

#[test]
fn multi_signer_and_signature_variant_conversions() {
    assert_eq!(MultiSigner::unchecked_from([3u8; 32]), MultiSigner::Ed25519([3u8; 32]));
    assert_eq!(MultiSigner::Ed25519([1u8; 32]).try_into_ed25519(), Ok([1u8; 32]));
    assert_eq!(MultiSigner::Ed25519([1u8; 32]).try_into_sr25519(), Err(()));
    assert_eq!(MultiSigner::Sr25519([2u8; 32]).try_into_sr25519(), Ok([2u8; 32]));
    assert_eq!(MultiSigner::Sr25519([2u8; 32]).try_into_ecdsa(), Err(()));
    assert_eq!(MultiSigner::Ecdsa([4u8; 20]).try_into_ecdsa(), Ok([4u8; 20]));
    assert_eq!(MultiSigner::Ecdsa([4u8; 20]).try_into_ed25519(), Err(()));
    assert_eq!(MultiSignature::Ed25519([5u8; 64]).try_into_ed25519(), Ok([5u8; 64]));
    assert_eq!(MultiSignature::Ed25519([5u8; 64]).try_into_sr25519(), Err(()));
    assert_eq!(MultiSignature::Sr25519([6u8; 64]).try_into_sr25519(), Ok([6u8; 64]));
    assert_eq!(MultiSignature::Sr25519([6u8; 64]).try_into_ecdsa(), Err(()));
    assert_eq!(MultiSignature::Ecdsa([7u8; 65]).try_into_ecdsa(), Ok([7u8; 65]));
    assert_eq!(MultiSignature::Ecdsa([7u8; 65]).try_into_ed25519(), Err(()));
}
