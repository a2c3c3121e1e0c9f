//! The payloads that the guild and identity pallets put into oracle
//! requests, with their SCALE encoding.
use vstd::prelude::*;
use crate::codec::{decode_u64, encode_u64, extend_bytes, le_bytes, lemma_le_roundtrip, skip_bytes, take_array};
use crate::dispatch::AccountId;

verus! {

/// Name of a guild.
pub type GuildName = [u8; 32];

/// Name of a role within a guild.
pub type RoleName = [u8; 32];

/// Kind of a linked address or identity.
pub type Prefix = [u8; 8];

/// An identity on another platform linked to an account.
pub type LinkedIdentity = [u8; 32];

/// Request to check that `identity` belongs to `requester`.
#[derive(PartialEq, Eq, Clone, Copy, Debug)]
pub struct LinkIdentityRequest {
    pub requester: AccountId,
    pub prefix: Prefix,
    pub identity: LinkedIdentity,
}

/// Request to check that `account` meets the requirements of a role.
#[derive(PartialEq, Eq, Clone, Copy, Debug)]
pub struct AccessCheckRequest {
    pub requester: AccountId,
    pub account: AccountId,
    pub guild_name: GuildName,
    pub role_name: RoleName,
}

impl LinkIdentityRequest {
    /// The encoding: the fields one after the other.
    pub open spec fn spec_encode(self) -> Seq<u8> {
        le_bytes(self.requester) + self.prefix@ + self.identity@
    }

    pub fn encode(&self) -> (r: Vec<u8>)
        ensures
            r@ == self.spec_encode(),
    {
        let mut r = encode_u64(self.requester);
        extend_bytes(&mut r, &self.prefix);
        extend_bytes(&mut r, &self.identity);
        r
    }

    /// Reads a request from the front of `input`; `None` when `input` is
    /// too short to hold one.
    pub fn decode(input: &[u8]) -> (r: Option<LinkIdentityRequest>)
        ensures
            input@.len() < 48 ==> r is None,
            input@.len() >= 48 ==> r == Some(
                LinkIdentityRequest {
                    requester: crate::codec::le_value(input@),
                    prefix: spec_array(input@.subrange(8, 16)),
                    identity: spec_array(input@.subrange(16, 48)),
                },
            ),
    {
        if input.len() < 48 {
            return None;
        }
        let requester = match decode_u64(input) {
            Some(x) => x,
            None => {
                return None;
            },
        };
        let rest = skip_bytes(input, 8);
        let prefix: [u8; 8] = take_array(rest);
        let rest = skip_bytes(rest, 8);
        let identity: [u8; 32] = take_array(rest);
        proof {
            assert(prefix@ =~= input@.subrange(8, 16));
            assert(identity@ =~= input@.subrange(16, 48));
            lemma_spec_array(prefix, input@.subrange(8, 16));
            lemma_spec_array(identity, input@.subrange(16, 48));
        }
        Some(LinkIdentityRequest { requester, prefix, identity })
    }

    /// Decoding an encoded request gives it back.
    pub proof fn lemma_roundtrip(self)
        ensures
            self.spec_encode().len() == 48,
            Self::spec_decode(self.spec_encode()) == Some(self),
    {
        let e = self.spec_encode();
        lemma_le_roundtrip(self.requester);
        assert(e.subrange(0, 8) =~= le_bytes(self.requester));
        assert(crate::codec::le_value(e) == crate::codec::le_value(le_bytes(self.requester)));
        assert(e.subrange(8, 16) =~= self.prefix@);
        assert(e.subrange(16, 48) =~= self.identity@);
        lemma_array_of_view(self.prefix);
        lemma_array_of_view(self.identity);
    }

    /// What `decode` gives for `input`.
    pub open spec fn spec_decode(input: Seq<u8>) -> Option<LinkIdentityRequest> {
        if input.len() < 48 {
            None
        } else {
            Some(
                LinkIdentityRequest {
                    requester: crate::codec::le_value(input),
                    prefix: spec_array(input.subrange(8, 16)),
                    identity: spec_array(input.subrange(16, 48)),
                },
            )
        }
    }
}

impl AccessCheckRequest {
    /// The encoding: the fields one after the other.
    pub open spec fn spec_encode(self) -> Seq<u8> {
        le_bytes(self.requester) + le_bytes(self.account) + self.guild_name@ + self.role_name@
    }

    pub fn encode(&self) -> (r: Vec<u8>)
        ensures
            r@ == self.spec_encode(),
    {
        let mut r = encode_u64(self.requester);
        let account = encode_u64(self.account);
        extend_bytes(&mut r, account.as_slice());
        extend_bytes(&mut r, &self.guild_name);
        extend_bytes(&mut r, &self.role_name);
        r
    }

    /// What `decode` gives for `input`.
    pub open spec fn spec_decode(input: Seq<u8>) -> Option<AccessCheckRequest> {
        if input.len() < 80 {
            None
        } else {
            Some(
                AccessCheckRequest {
                    requester: crate::codec::le_value(input),
                    account: crate::codec::le_value(input.subrange(8, 16)),
                    guild_name: spec_array(input.subrange(16, 48)),
                    role_name: spec_array(input.subrange(48, 80)),
                },
            )
        }
    }

    /// Reads a request from the front of `input`; `None` when `input` is
    /// too short to hold one.
    pub fn decode(input: &[u8]) -> (r: Option<AccessCheckRequest>)
        ensures
            r == Self::spec_decode(input@),
    {
        if input.len() < 80 {
            return None;
        }
        let requester = match decode_u64(input) {
            Some(x) => x,
            None => {
                return None;
            },
        };
        let rest = skip_bytes(input, 8);
        let account = match decode_u64(rest) {
            Some(x) => x,
            None => {
                return None;
            },
        };
        let rest = skip_bytes(rest, 8);
        let guild_name: [u8; 32] = take_array(rest);
        let rest = skip_bytes(rest, 32);
        let role_name: [u8; 32] = take_array(rest);
        proof {
            assert(input@.subrange(8, input@.len() as int) =~= input@.subrange(8, 16) + input@.subrange(16, input@.len() as int));
            assert(crate::codec::le_value(input@.subrange(8, input@.len() as int)) == crate::codec::le_value(input@.subrange(8, 16)));
            assert(guild_name@ =~= input@.subrange(16, 48));
            assert(role_name@ =~= input@.subrange(48, 80));
            lemma_spec_array(guild_name, input@.subrange(16, 48));
            lemma_spec_array(role_name, input@.subrange(48, 80));
        }
        Some(AccessCheckRequest { requester, account, guild_name, role_name })
    }

    /// Decoding an encoded request gives it back.
    pub proof fn lemma_roundtrip(self)
        ensures
            self.spec_encode().len() == 80,
            Self::spec_decode(self.spec_encode()) == Some(self),
    {
        let e = self.spec_encode();
        lemma_le_roundtrip(self.requester);
        lemma_le_roundtrip(self.account);
        assert(e.subrange(8, 16) =~= le_bytes(self.account));
        assert(e.subrange(16, 48) =~= self.guild_name@);
        assert(e.subrange(48, 80) =~= self.role_name@);
        lemma_array_of_view(self.guild_name);
        lemma_array_of_view(self.role_name);
    }
}

/// The array whose bytes are `s`.
pub open spec fn spec_array<const N: usize>(s: Seq<u8>) -> [u8; N] {
    choose|a: [u8; N]| a@ == s
}

pub proof fn lemma_spec_array<const N: usize>(a: [u8; N], s: Seq<u8>)
    requires
        a@ == s,
    ensures
        spec_array::<N>(s) == a,
{
    let b = spec_array::<N>(s);
    assert(b@ == s);
    assert(a =~= b);
}

pub proof fn lemma_array_of_view<const N: usize>(a: [u8; N])
    ensures
        spec_array::<N>(a@) == a,
{
    lemma_spec_array(a, a@);
}

} // verus!
