//! Records that the pallets store: guilds, roles and the off-chain key of a
//! role's allowlist.
use vstd::prelude::*;
use crate::codec::extend_bytes;
use crate::filter::Filter;
use crate::identity::IdentityWithAuth;
use crate::requests::{GuildName, RoleName};

verus! {

/// Opaque bytes stored on chain.
pub type SerializedData = Vec<u8>;

/// The serialized requirements of a role and the serialized logic that
/// combines them.
pub type SerializedRequirements = (Vec<SerializedData>, SerializedData);

/// A guild: its name, owner, metadata and the names of its roles in the
/// order they were created.
#[derive(Debug)]
pub struct Guild<T> {
    pub name: GuildName,
    pub owner: T,
    pub metadata: SerializedData,
    pub roles: Vec<RoleName>,
}

/// Plain-value description of a guild.
pub struct GuildView<T> {
    pub name: GuildName,
    pub owner: T,
    pub metadata: Seq<u8>,
    pub roles: Seq<RoleName>,
}

impl<T: Copy> Guild<T> {
    pub open spec fn view(&self) -> GuildView<T> {
        GuildView { name: self.name, owner: self.owner, metadata: self.metadata@, roles: self.roles@ }
    }
}

/// The access rules of a role: an optional filter and optional off-chain
/// requirements.
#[derive(Debug)]
pub struct Role {
    pub filter: Option<Filter>,
    pub requirements: Option<SerializedRequirements>,
}

/// Plain-value description of serialized requirements.
pub open spec fn requirements_view(r: SerializedRequirements) -> (Seq<Seq<u8>>, Seq<u8>) {
    (r.0@.map_values(|v: Vec<u8>| v@), r.1@)
}

/// Plain-value description of a role.
pub struct RoleView {
    pub filter: Option<Filter>,
    pub requirements: Option<(Seq<Seq<u8>>, Seq<u8>)>,
}

impl Role {
    pub open spec fn view(&self) -> RoleView {
        RoleView {
            filter: self.filter,
            requirements: match self.requirements {
                Some(r) => Some(requirements_view(r)),
                None => None,
            },
        }
    }
}


/// A request to the oracle: who asks, and what.
#[derive(Clone, Debug)]
pub struct Request<T> {
    pub requester: T,
    pub data: RequestData<T>,
}

/// What a request asks the oracle to check.
#[derive(Clone, Debug, PartialEq, Eq)]
pub enum RequestData<T> {
    /// That the identity is authenticated by its signature.
    Register { identity_with_auth: IdentityWithAuth, index: u8 },
    /// That `account` meets the requirements of a role.
    ReqCheck { account: T, guild_name: GuildName, role_name: RoleName },
}

/// The bytes of `guild-allowlist`, which begin the off-chain key of every
/// allowlist.
pub open spec fn allowlist_prefix() -> Seq<u8> {
    seq![103u8, 117u8, 105u8, 108u8, 100u8, 45u8, 97u8, 108u8, 108u8, 111u8, 119u8, 108u8, 105u8, 115u8, 116u8]
}

/// The off-chain storage key under which the allowlist of the role whose id
/// is `key` is kept: the allowlist prefix followed by `key`.
pub fn offchain_allowlist_key(key: &[u8]) -> (k: Vec<u8>)
    ensures
        k@ == allowlist_prefix() + key@,
{
    let prefix: [u8; 15] = [103, 117, 105, 108, 100, 45, 97, 108, 108, 111, 119, 108, 105, 115, 116];
    let mut k: Vec<u8> = Vec::new();
    extend_bytes(&mut k, &prefix);
    extend_bytes(&mut k, key);
    proof {
        assert(prefix@ =~= allowlist_prefix());
        assert(k@ =~= allowlist_prefix() + key@);
    }
    k
}

} // verus!
