//! Identities on Ethereum, Discord and Telegram, how they are authenticated,
//! and the message that a user signs to join a role.
use vstd::prelude::*;
use vstd::string::StringSliceAdditionalSpecFns;
use vstd::utf8::valid_utf8;
use crate::collections::slice_eq;

verus! {

/// A platform on which users have identities.
#[derive(Clone, Copy, Debug, Hash, PartialEq, Eq, Structural)]
pub enum Platform {
    EvmChain,
    Discord,
    Telegram,
}

/// A chain on which the balance of an EVM address can be required.
#[derive(Clone, Copy, Debug, PartialEq, Eq, Structural)]
pub enum Chain {
    Ethereum,
    Bsc,
    Gnosis,
    Polygon,
}

impl Chain {
    /// The chain id: 1 for Ethereum, 56 for BSC, 100 for Gnosis and 137 for
    /// Polygon.
    pub fn chain_id(&self) -> (id: u64)
        ensures
            id == match *self {
                Chain::Ethereum => 1u64,
                Chain::Bsc => 56u64,
                Chain::Gnosis => 100u64,
                Chain::Polygon => 137u64,
            },
    {
        match self {
            Chain::Ethereum => 1,
            Chain::Bsc => 56,
            Chain::Gnosis => 100,
            Chain::Polygon => 137,
        }
    }
}

/// An identity on a platform.
#[derive(Debug)]
pub enum Identity {
    EvmChain([u8; 20]),
    Discord(Vec<u8>),
    Telegram(Vec<u8>),
}

/// An identity with what authenticates it.
#[derive(Debug)]
pub enum IdentityWithAuth {
    EvmChain([u8; 20], [u8; 65]),
    /// Not authenticated for now.
    Discord(Vec<u8>, ()),
    /// Not authenticated for now.
    Telegram(Vec<u8>, ()),
}

/// What authenticates an identity: for an EVM address, a signature of a
/// message.
#[derive(Debug)]
pub enum IdentityAuth {
    EvmChain { signature: [u8; 65], msg: Vec<u8> },
    Discord,
    Telegram,
}

/// Why an identity was not verified.
#[derive(Debug)]
pub enum GateError {
    /// No message was given to check an EVM signature against.
    MissingExpectedMessage,
    /// The authentication does not prove the identity.
    InvalidIdentity,
    /// The message is not UTF-8 or the signature does not verify; the text
    /// says why.
    Other(String),
}

impl GateError {
    /// The text of the error.
    pub fn message(&self) -> (s: String)
        ensures
            self is MissingExpectedMessage ==> s@ == "`expected_msg` in signature verification is `None`"@,
            self is InvalidIdentity ==> s@ == "invalid identity"@,
            self matches GateError::Other(t) ==> s@ == t@,
    {
        match self {
            GateError::MissingExpectedMessage => String::from_str(
                "`expected_msg` in signature verification is `None`",
            ),
            GateError::InvalidIdentity => String::from_str("invalid identity"),
            GateError::Other(t) => t.clone(),
        }
    }
}

impl IdentityWithAuth {
    /// The platform of the identity, and the identity without its
    /// authentication.
    pub fn into_platform_with_id(self) -> (r: (Platform, Identity))
        ensures
            match self {
                IdentityWithAuth::EvmChain(a, _) => r == (Platform::EvmChain, Identity::EvmChain(a)),
                IdentityWithAuth::Discord(id, _) => r == (Platform::Discord, Identity::Discord(id)),
                IdentityWithAuth::Telegram(id, _) => r == (Platform::Telegram, Identity::Telegram(id)),
            },
    {
        match self {
            IdentityWithAuth::EvmChain(address, _) => (Platform::EvmChain, Identity::EvmChain(address)),
            IdentityWithAuth::Discord(id, _) => (Platform::Discord, Identity::Discord(id)),
            IdentityWithAuth::Telegram(id, _) => (Platform::Telegram, Identity::Telegram(id)),
        }
    }

    /// The identity without its authentication.
    pub open spec fn spec_identity(self) -> Identity {
        match self {
            IdentityWithAuth::EvmChain(a, _) => Identity::EvmChain(a),
            IdentityWithAuth::Discord(id, _) => Identity::Discord(id),
            IdentityWithAuth::Telegram(id, _) => Identity::Telegram(id),
        }
    }
}

impl From<IdentityWithAuth> for Identity {
    fn from(value: IdentityWithAuth) -> (id: Identity) {
        match value {
            IdentityWithAuth::EvmChain(address, _) => Identity::EvmChain(address),
            IdentityWithAuth::Discord(id, _) => Identity::Discord(id),
            IdentityWithAuth::Telegram(id, _) => Identity::Telegram(id),
        }
    }
}

impl vstd::std_specs::convert::FromSpecImpl<IdentityWithAuth> for Identity {
    open spec fn obeys_from_spec() -> bool {
        true
    }

    open spec fn from_spec(value: IdentityWithAuth) -> Identity {
        value.spec_identity()
    }
}

/// Whether `signature` is a valid Ethereum signature by `address` of the
/// Ethereum-prefixed `message`.
pub uninterp spec fn evm_signature_valid(signature: Seq<u8>, message: Seq<u8>, address: Seq<u8>) -> bool;

/// `bytes` as a string slice (`std::str::from_utf8`): refused, with the
/// text of the error, exactly when `bytes` is not UTF-8.
#[verifier::external_body]
fn str_from_utf8<'a>(bytes: &'a [u8]) -> (r: Result<&'a str, String>)
    ensures
        r is Ok <==> valid_utf8(bytes@),
        r matches Ok(s) ==> s.spec_bytes() == bytes@,
{
    match std::str::from_utf8(bytes) {
        Ok(s) => Ok(s),
        Err(e) => Err(e.to_string()),
    }
}

/// Checks an Ethereum signature of `msg` by `address` with `ethers_core`
/// (`Signature::try_from` on the 65 bytes, `Signature::verify`, which
/// hashes the message with the Ethereum prefix and compares the recovered
/// address). An error carries the text of the `SignatureError`.
#[verifier::external_body]
fn evm_signature_verify(signature: &[u8; 65], msg: &str, address: &[u8; 20]) -> (r: Result<(), String>)
    ensures
        r is Ok == evm_signature_valid(signature@, msg.spec_bytes(), address@),
{
    match ethers_core::types::Signature::try_from(&signature[..]) {
        Ok(sig) => match sig.verify(msg, ethers_core::types::Address::from(*address)) {
            Ok(()) => Ok(()),
            Err(e) => Err(e.to_string()),
        },
        Err(e) => Err(e.to_string()),
    }
}

impl Identity {
    /// Why `verify` refuses the identity, if it does: an EVM address needs
    /// an expected message, a UTF-8 signed message, a valid signature by the
    /// address and a signed message equal to the expected one; Discord and
    /// Telegram identities pass; an authentication of another platform
    /// fails.
    pub open spec fn verify_error(&self, auth: &IdentityAuth, expected_msg: Option<&str>) -> Option<GateError> {
        match (*self, *auth) {
            (Identity::EvmChain(address), IdentityAuth::EvmChain { signature, msg }) => match expected_msg {
                None => Some(GateError::MissingExpectedMessage),
                Some(expected) => if !valid_utf8(msg@) || !evm_signature_valid(signature@, msg@, address@) {
                    Some(GateError::Other(arbitrary()))
                } else if msg@ != expected.spec_bytes() {
                    Some(GateError::InvalidIdentity)
                } else {
                    None
                },
            },
            (Identity::Discord(_), _) => None,
            (Identity::Telegram(_), _) => None,
            _ => Some(GateError::InvalidIdentity),
        }
    }

    /// Verifies the identity with `auth`; `expected_msg` is the message an
    /// EVM signature must be of, which keeps signatures from being replayed
    /// by someone else.
    pub fn verify(&self, auth: &IdentityAuth, expected_msg: Option<&str>) -> (r: Result<(), GateError>)
        ensures
            match self.verify_error(auth, expected_msg) {
                None => r is Ok,
                Some(GateError::Other(_)) => r matches Err(GateError::Other(_)),
                Some(e) => r == Err::<(), GateError>(e),
            },
    {
        let is_valid = match (self, auth) {
            (Identity::EvmChain(address), IdentityAuth::EvmChain { signature, msg }) => {
                match expected_msg {
                    Some(expected) => {
                        let msg_str = match str_from_utf8(msg.as_slice()) {
                            Ok(s) => s,
                            Err(e) => {
                                return Err(GateError::Other(e));
                            },
                        };
                        match evm_signature_verify(signature, msg_str, address) {
                            Ok(()) => {},
                            Err(e) => {
                                return Err(GateError::Other(e));
                            },
                        }
                        slice_eq(msg.as_slice(), expected.as_bytes())
                    },
                    None => {
                        return Err(GateError::MissingExpectedMessage);
                    },
                }
            },
            (Identity::Discord(_), _) => true,
            (Identity::Telegram(_), _) => true,
            _ => false,
        };
        if !is_valid {
            return Err(GateError::InvalidIdentity);
        }
        Ok(())
    }
}

/// The message that a user signs to join a role:
/// `{id} wants to join role {guild_name} of guild {role_name}`.
pub fn verification_msg(id: &str, guild_name: &str, role_name: &str) -> (msg: String)
    ensures
        msg@ == id@ + " wants to join role "@ + guild_name@ + " of guild "@ + role_name@,
{
    String::from_str(id).concat(" wants to join role ").concat(guild_name).concat(" of guild ").concat(
        role_name,
    )
}

} // verus!
