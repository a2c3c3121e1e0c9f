use guild_network::gate::{verification_msg, Chain, GateError, Identity, IdentityAuth, IdentityWithAuth, Platform};

const SIGNATURE: &str = "fa2759679db3b02dae5e3627572a282d20e98f2eb142b86edc70b10352a1a26e6249f5350f02e1210e9aa57c9a78e6ae3eb380f7b32ea144f12614baffba16711b";

fn signature(s: &str) -> [u8; 65] {
    hex::decode(s).unwrap().try_into().unwrap()
}

fn address(s: &str) -> [u8; 20] {
    hex::decode(s.trim_start_matches("0x")).unwrap().try_into().unwrap()
}

fn valid_signature(msg: &str, signature: [u8; 65], address: [u8; 20]) -> bool {
    let identity = Identity::EvmChain(address);
    let identity_auth = IdentityAuth::EvmChain { signature, msg: msg.as_bytes().to_owned() };
    identity.verify(&identity_auth, Some(msg)).is_ok()
}

#[test]
fn frontrunning_detection_fail() {
    let msg = "requiem aeternam dona eis";
    let signature = signature(SIGNATURE);
    let address = address("0x9d5eba47309d5ddbc0823a878c5960c2aad86fa6");
    let identity = Identity::EvmChain(address);
    let identity_auth = IdentityAuth::EvmChain { signature, msg: msg.as_bytes().to_owned() };
    assert_eq!(
        identity.verify(&identity_auth, None).unwrap_err().message(),
        "`expected_msg` in signature verification is `None`"
    );
}

#[test]
fn verify_valid_evm_signature() {
    let msg = "requiem aeternam dona eis";
    let signature = signature(SIGNATURE);
    let address = address("0x9d5eba47309d5ddbc0823a878c5960c2aad86fa6");
    assert!(valid_signature(msg, signature, address));
}

#[test]
fn verify_invalid_evm_signature_wrong_msg() {
    let msg = "invalid";
    let signature = signature(SIGNATURE);
    let address = address("0x9d5eba47309d5ddbc0823a878c5960c2aad86fa6");
    assert!(!valid_signature(msg, signature, address));
}

#[test]
fn verify_invalid_evm_signature_wrong_address() {
    let msg = "requiem aeternam dona eis";
    let signature = signature(SIGNATURE);
    let address = address("0x3d5eba47309d5ddbc0823a878c5960c2aad86fa6");
    assert!(!valid_signature(msg, signature, address));
}

#[test]
fn verify_invalid_evm_signature_wrong_signature() {
    let msg = "requiem aeternam dona eis";
    let signature = signature(
        "aa2759679db3b02dae5e3627572a282d20e98f2eb142b86edc70b10352a1a26e6249f5350f02e1210e9aa57c9a78e6ae3eb380f7b32ea144f12614baffba16711b",
    );
    let address = address("0x9d5eba47309d5ddbc0823a878c5960c2aad86fa6");
    assert!(!valid_signature(msg, signature, address));
}

#[test]
fn verify_verify_off_chain_platforms() {
    let discord_id = Identity::Discord(vec![]);
    let telegram_id = Identity::Telegram(vec![]);

    let discord_auth = IdentityAuth::Discord;
    let telegram_auth = IdentityAuth::Telegram;

    assert!(discord_id.verify(&discord_auth, None).is_ok());
    assert!(telegram_id.verify(&telegram_auth, None).is_ok());
}

#[test]
fn signed_message_must_be_the_expected_one() {
    let msg = "requiem aeternam dona eis";
    let identity = Identity::EvmChain(address("0x9d5eba47309d5ddbc0823a878c5960c2aad86fa6"));
    let auth = IdentityAuth::EvmChain { signature: signature(SIGNATURE), msg: msg.as_bytes().to_owned() };
    // the signature is valid, but for another message than the one expected
    match identity.verify(&auth, Some("another message")) {
        Err(GateError::InvalidIdentity) => {}
        other => panic!("unexpected {:?}", other),
    }
    assert_eq!(GateError::InvalidIdentity.message(), "invalid identity");
}

#[test]
fn non_utf8_message_is_refused() {
    let identity = Identity::EvmChain([0u8; 20]);
    let auth = IdentityAuth::EvmChain { signature: [0u8; 65], msg: vec![0xff, 0xfe] };
    assert!(matches!(identity.verify(&auth, Some("x")), Err(GateError::Other(_))));
}

#[test]
fn platform_mismatch_is_refused() {
    let identity = Identity::EvmChain([0u8; 20]);
    assert!(matches!(identity.verify(&IdentityAuth::Discord, Some("x")), Err(GateError::InvalidIdentity)));
}

#[test]
fn platforms_of_identities() {
    let (platform, id) = IdentityWithAuth::Discord(vec![1, 2], ()).into_platform_with_id();
    assert_eq!(platform, Platform::Discord);
    assert!(matches!(id, Identity::Discord(ref v) if v == &vec![1, 2]));
    let (platform, id) = IdentityWithAuth::EvmChain([5u8; 20], [0u8; 65]).into_platform_with_id();
    assert_eq!(platform, Platform::EvmChain);
    assert!(matches!(id, Identity::EvmChain(a) if a == [5u8; 20]));
    let id: Identity = IdentityWithAuth::Telegram(vec![3], ()).into();
    assert!(matches!(id, Identity::Telegram(ref v) if v == &vec![3]));
}

#[test]
fn join_message() {
    assert_eq!(verification_msg("alice", "g", "r"), "alice wants to join role g of guild r");
}

#[test]
fn chain_ids() {
    assert_eq!(Chain::Ethereum.chain_id(), 1);
    assert_eq!(Chain::Bsc.chain_id(), 56);
    assert_eq!(Chain::Gnosis.chain_id(), 100);
    assert_eq!(Chain::Polygon.chain_id(), 137);
}
